//! Text as sequences of characters: searching, replacing, ordering, numerals.

use vstd::prelude::*;

verus! {

/// Does `part` stand in `text` at position `at`?
pub open spec fn occurs_at(text: Seq<char>, part: Seq<char>, at: int) -> bool {
    &&& 0 <= at
    &&& at + part.len() <= text.len()
    &&& text.subrange(at, at + part.len()) == part
}

/// Does `part` stand anywhere in `text`?
pub open spec fn occurs_in(text: Seq<char>, part: Seq<char>) -> bool {
    exists|at: int| occurs_at(text, part, at)
}

/// Is `at` the leftmost position of `part` in `text`?
pub open spec fn first_at(text: Seq<char>, part: Seq<char>, at: int) -> bool {
    &&& occurs_at(text, part, at)
    &&& forall|other: int| other < at ==> !occurs_at(text, part, other)
}

/// `text` with the leftmost occurrence of `part` replaced by `by`, or `text`
/// itself where there is none.
pub open spec fn replaced_first(text: Seq<char>, part: Seq<char>, by: Seq<char>) -> Seq<char> {
    if occurs_in(text, part) {
        let at = choose|at: int| first_at(text, part, at);
        text.subrange(0, at) + by + text.subrange(at + part.len(), text.len() as int)
    } else {
        text
    }
}

/// `text` without any of the copies of `prefix` that stand at its front.
pub open spec fn without_prefixes(text: Seq<char>, prefix: Seq<char>) -> Seq<char>
    decreases text.len(),
{
    if prefix.len() > 0 && occurs_at(text, prefix, 0) {
        without_prefixes(text.subrange(prefix.len() as int, text.len() as int), prefix)
    } else {
        text
    }
}

/// The character with `A` to `Z` turned into `a` to `z`.
pub open spec fn ascii_lower(c: char) -> char {
    if 'A' <= c && c <= 'Z' {
        (c as u32 + 32) as char
    } else {
        c
    }
}

/// The text with `A` to `Z` turned into `a` to `z`.
pub open spec fn lowercased(text: Seq<char>) -> Seq<char> {
    text.map_values(|c: char| ascii_lower(c))
}

/// Is `a` before `b` in the order of code points, read from the left, in which
/// a text comes after those that it continues?
pub open spec fn before(a: Seq<char>, b: Seq<char>) -> bool
    decreases a.len(),
{
    if b.len() == 0 {
        false
    } else if a.len() == 0 {
        true
    } else if a[0] == b[0] {
        before(a.drop_first(), b.drop_first())
    } else {
        a[0] < b[0]
    }
}

/// The digit that stands for `d`, for `d` from 0 to 15.
pub open spec fn digit(d: int) -> char {
    seq!['0', '1', '2', '3', '4', '5', '6', '7', '8', '9', 'A', 'B', 'C', 'D', 'E', 'F'][d]
}

/// The decimal numeral of `n`.
pub open spec fn decimal(n: nat) -> Seq<char>
    decreases n,
{
    if n < 10 {
        seq![digit(n as int)]
    } else {
        decimal(n / 10).push(digit((n % 10) as int))
    }
}

/// The hexadecimal numeral of `n` in capitals.
pub open spec fn hexadecimal(n: nat) -> Seq<char>
    decreases n,
{
    if n < 16 {
        seq![digit(n as int)]
    } else {
        hexadecimal(n / 16).push(digit((n % 16) as int))
    }
}

/// The hexadecimal numeral of `n` in capitals, with at least two digits.
pub open spec fn hexadecimal_padded(n: nat) -> Seq<char> {
    if n < 16 {
        seq!['0'] + hexadecimal(n)
    } else {
        hexadecimal(n)
    }
}

/// The characters of a text, one by one.
pub fn characters(text: &str) -> (r: Vec<char>)
    ensures
        r@ == text@,
{
    let mut r: Vec<char> = Vec::new();
    for c in it: text.chars()
        invariant
            it.seq() == text@,
            r@ == text@.take(it.index() as int),
    {
        r.push(c);
    }
    assert(text@.take(text@.len() as int) == text@);
    r
}

/// Does `part` stand in `text` at position `at`?
pub fn stands_at(text: &Vec<char>, part: &Vec<char>, at: usize) -> (r: bool)
    ensures
        r == occurs_at(text@, part@, at as int),
{
    if at > text.len() || part.len() > text.len() - at {
        return false;
    }
    let end: usize = text.len();
    let mut i: usize = 0;
    while i < part.len()
        invariant
            end == text@.len(),
            i <= part@.len(),
            at + part@.len() <= end,
            forall|j: int| 0 <= j < i ==> text@[at + j] == part@[j],
        decreases part@.len() - i,
    {
        if text[at + i] != part[i] {
            assert(text@.subrange(at as int, at + part@.len())[i as int] != part@[i as int]);
            return false;
        }
        i = i + 1;
    }
    assert(text@.subrange(at as int, at + part@.len()) =~= part@);
    true
}

/// The leftmost position of `part` in `text`, if it stands there at all.
pub fn find_first(text: &Vec<char>, part: &Vec<char>) -> (r: Option<usize>)
    ensures
        r is Some <==> occurs_in(text@, part@),
        r matches Some(at) ==> first_at(text@, part@, at as int),
{
    let mut at: usize = 0;
    while at < text.len()
        invariant
            at <= text@.len(),
            forall|other: int| other < at ==> !occurs_at(text@, part@, other),
        decreases text@.len() - at,
    {
        if stands_at(text, part, at) {
            return Some(at);
        }
        at = at + 1;
    }
    if stands_at(text, part, at) {
        Some(at)
    } else {
        None
    }
}

/// Are the two texts the same?
pub fn same(a: &str, b: &str) -> (r: bool)
    ensures
        r == (a@ == b@),
{
    let x = characters(a);
    let y = characters(b);
    if x.len() != y.len() {
        return false;
    }
    assert(x@.subrange(0, y@.len() as int) =~= x@);
    stands_at(&x, &y, 0)
}

/// Does `text` begin with `prefix`?
pub fn begins_with(text: &str, prefix: &str) -> (r: bool)
    ensures
        r == occurs_at(text@, prefix@, 0),
{
    stands_at(&characters(text), &characters(prefix), 0)
}

/// Does `text` end with `suffix`?
pub fn finishes_with(text: &str, suffix: &str) -> (r: bool)
    ensures
        r == occurs_at(text@, suffix@, text@.len() - suffix@.len()),
{
    let x = characters(text);
    let y = characters(suffix);
    if y.len() > x.len() {
        return false;
    }
    stands_at(&x, &y, x.len() - y.len())
}

/// The two texts, one after the other.
pub fn join(a: &str, b: &str) -> (r: String)
    ensures
        r@ == a@ + b@,
{
    let mut r = a.to_owned();
    r.append(b);
    r
}

/// `text` with the leftmost occurrence of `part` replaced by `by`.
pub fn replace_first(text: &str, part: &str, by: &str) -> (r: String)
    ensures
        r@ == replaced_first(text@, part@, by@),
{
    let x = characters(text);
    let y = characters(part);
    match find_first(&x, &y) {
        Some(at) => {
            proof {
                let chosen = choose|k: int| first_at(text@, part@, k);
                assert(first_at(text@, part@, at as int));
                assert(chosen == at);
            }
            let mut r = text.substring_char(0, at).to_owned();
            r.append(by);
            let end: usize = x.len();
            r.append(text.substring_char(at + y.len(), end));
            r
        },
        None => text.to_owned(),
    }
}

/// `text` without any of the copies of `prefix` that stand at its front.
pub fn drop_prefixes(text: &str, prefix: &str) -> (r: String)
    ensures
        r@ == without_prefixes(text@, prefix@),
{
    let x = characters(text);
    let y = characters(prefix);
    let mut at: usize = 0;
    assert(text@.subrange(0, text@.len() as int) =~= text@);
    let end: usize = x.len();
    loop
        invariant
            x@ == text@,
            y@ == prefix@,
            end == x@.len(),
            at <= end,
            without_prefixes(text@, prefix@) == without_prefixes(
                text@.subrange(at as int, end as int),
                prefix@,
            ),
        ensures
            at <= end,
            without_prefixes(text@, prefix@) == text@.subrange(at as int, end as int),
        decreases end - at,
    {
        proof {
            let rest = text@.subrange(at as int, end as int);
            if at + prefix@.len() <= end {
                assert(rest.subrange(0, prefix@.len() as int) =~= text@.subrange(
                    at as int,
                    at + prefix@.len(),
                ));
                assert(rest.subrange(prefix@.len() as int, rest.len() as int) =~= text@.subrange(
                    at + prefix@.len(),
                    end as int,
                ));
            }
        }
        if y.len() == 0 || !stands_at(&x, &y, at) {
            break;
        }
        at = at + y.len();
    }
    text.substring_char(at, end).to_owned()
}

/// The characters of a text with `A` to `Z` turned into `a` to `z`.
pub fn lower(text: &str) -> (r: Vec<char>)
    ensures
        r@ == lowercased(text@),
{
    let mut r = characters(text);
    let mut i: usize = 0;
    while i < r.len()
        invariant
            i <= r@.len(),
            r@.len() == text@.len(),
            forall|j: int| 0 <= j < i ==> r@[j] == ascii_lower(text@[j]),
            forall|j: int| i <= j < r@.len() ==> r@[j] == text@[j],
        decreases r@.len() - i,
    {
        let c: char = r[i];
        if 'A' <= c && c <= 'Z' {
            let b: u8 = c as u8;
            r[i] = (b + 32) as char;
        }
        i = i + 1;
    }
    assert(r@ =~= lowercased(text@));
    r
}

/// Is `a` before `b` in the order of code points?
pub fn precedes(a: &str, b: &str) -> (r: bool)
    ensures
        r == before(a@, b@),
{
    let x = characters(a);
    let y = characters(b);
    let mut i: usize = 0;
    assert(a@.skip(0) =~= a@);
    assert(b@.skip(0) =~= b@);
    while i < x.len() && i < y.len() && x[i] == y[i]
        invariant
            x@ == a@,
            y@ == b@,
            i <= x@.len(),
            i <= y@.len(),
            before(a@, b@) == before(a@.skip(i as int), b@.skip(i as int)),
        decreases x@.len() - i,
    {
        proof {
            assert(a@.skip(i as int).drop_first() =~= a@.skip(i + 1));
            assert(b@.skip(i as int).drop_first() =~= b@.skip(i + 1));
        }
        i = i + 1;
    }
    if i >= y.len() {
        false
    } else if i >= x.len() {
        true
    } else {
        x[i] < y[i]
    }
}

/// The digits in the order of their values.
proof fn lemma_digits(d: int)
    requires
        0 <= d < 16,
    ensures
        "0123456789ABCDEF"@.len() == 16,
        "0123456789ABCDEF"@[d] == digit(d),
{
    reveal_strlit("0123456789ABCDEF");
    assert(d == 0 || d == 1 || d == 2 || d == 3 || d == 4 || d == 5 || d == 6 || d == 7 || d == 8
        || d == 9 || d == 10 || d == 11 || d == 12 || d == 13 || d == 14 || d == 15);
}

/// The digit that stands for `d`.
fn digit_text(d: u32) -> (r: &'static str)
    requires
        d < 16,
    ensures
        r@ == seq![digit(d as int)],
{
    let digits = "0123456789ABCDEF";
    proof {
        lemma_digits(d as int);
    }
    let r = digits.substring_char(d as usize, d as usize + 1);
    assert(r@ =~= seq![digit(d as int)]);
    r
}

/// The decimal numeral of `n`.
pub fn decimal_text(n: usize) -> (r: String)
    ensures
        r@ == decimal(n as nat),
    decreases n,
{
    if n < 10 {
        digit_text(n as u32).to_owned()
    } else {
        let mut r = decimal_text(n / 10);
        r.append(digit_text((n % 10) as u32));
        assert(r@ =~= decimal(n as nat));
        r
    }
}

/// The hexadecimal numeral of `n` in capitals.
pub fn hexadecimal_text(n: u32) -> (r: String)
    ensures
        r@ == hexadecimal(n as nat),
    decreases n,
{
    if n < 16 {
        digit_text(n).to_owned()
    } else {
        let mut r = hexadecimal_text(n / 16);
        r.append(digit_text(n % 16));
        assert(r@ =~= hexadecimal(n as nat));
        r
    }
}

/// The hexadecimal numeral of `n` in capitals, with at least two digits.
pub fn hexadecimal_padded_text(n: u32) -> (r: String)
    ensures
        r@ == hexadecimal_padded(n as nat),
{
    let r = hexadecimal_text(n);
    if n < 16 {
        proof {
            reveal_strlit("0");
            assert("0"@ =~= seq!['0']);
        }
        join("0", r.as_str())
    } else {
        r
    }
}

/// No text is before itself.
pub proof fn lemma_before_irreflexive(a: Seq<char>)
    ensures
        !before(a, a),
    decreases a.len(),
{
    if a.len() > 0 {
        lemma_before_irreflexive(a.drop_first());
    }
}

/// The order of texts is transitive.
pub proof fn lemma_before_transitive(a: Seq<char>, b: Seq<char>, c: Seq<char>)
    requires
        before(a, b),
        before(b, c),
    ensures
        before(a, c),
    decreases a.len(),
{
    if a.len() > 0 && a[0] == b[0] && b[0] == c[0] {
        lemma_before_transitive(a.drop_first(), b.drop_first(), c.drop_first());
    }
}

/// Of two different texts one is before the other.
pub proof fn lemma_before_total(a: Seq<char>, b: Seq<char>)
    ensures
        a == b || before(a, b) || before(b, a),
    decreases a.len(),
{
    if a.len() == 0 {
        if b.len() == 0 {
            assert(a =~= b);
        }
    } else if b.len() > 0 && a[0] == b[0] {
        lemma_before_total(a.drop_first(), b.drop_first());
        if a.drop_first() == b.drop_first() {
            assert(a =~= seq![a[0]] + a.drop_first());
            assert(b =~= seq![b[0]] + b.drop_first());
        }
    }
}

/// A part stands in a text exactly where the text is what comes before the part,
/// the part, and what comes after it.
pub proof fn law_occurrences(text: Seq<char>, part: Seq<char>, at: int)
    ensures
        occurs_at(text, part, at) <==> exists|front: Seq<char>, back: Seq<char>|
            text == #[trigger] (front + part + back) && front.len() == at,
        occurs_in(text, part) <==> exists|front: Seq<char>, back: Seq<char>|
            text == #[trigger] (front + part + back),
{
    assert forall|front: Seq<char>, back: Seq<char>|
        text == #[trigger] (front + part + back) implies occurs_at(text, part, front.len() as int) by {
        assert(text.subrange(front.len() as int, (front.len() + part.len()) as int)
            =~= part);
    }
    assert forall|i: int| #[trigger] occurs_at(text, part, i) implies text == text.subrange(0, i)
        + part + text.subrange(i + part.len(), text.len() as int) by {
        assert(text =~= text.subrange(0, i) + text.subrange(i, i + part.len()) + text.subrange(
            i + part.len(),
            text.len() as int,
        ));
    }
    if occurs_at(text, part, at) {
        let front = text.subrange(0, at);
        let back = text.subrange(at + part.len(), text.len() as int);
        assert(text == front + part + back && front.len() == at);
    }
    if occurs_in(text, part) {
        let i = choose|i: int| occurs_at(text, part, i);
        let front = text.subrange(0, i);
        let back = text.subrange(i + part.len(), text.len() as int);
        assert(text == front + part + back);
    }
}

/// A text ends in a suffix exactly where it is some front and the suffix, and it
/// begins with a prefix exactly where it is the prefix and some rest.
pub proof fn law_ends_of_texts(text: Seq<char>, part: Seq<char>)
    ensures
        occurs_at(text, part, text.len() - part.len()) <==> exists|front: Seq<char>|
            text == #[trigger] (front + part),
        occurs_at(text, part, 0) <==> exists|back: Seq<char>| text == #[trigger] (part + back),
{
    let end = text.len() - part.len();
    if occurs_at(text, part, end) {
        assert(text =~= text.subrange(0, end) + text.subrange(end, text.len() as int));
        assert(text == text.subrange(0, end) + part);
    }
    assert forall|front: Seq<char>| text == #[trigger] (front + part) implies occurs_at(
        text,
        part,
        end,
    ) by {
        assert(text.subrange(end, text.len() as int) =~= part);
    }
    if occurs_at(text, part, 0) {
        let n = part.len() as int;
        assert(text =~= text.subrange(0, n) + text.subrange(n, text.len() as int));
        assert(text == part + text.subrange(n, text.len() as int));
    }
    assert forall|back: Seq<char>| text == #[trigger] (part + back) implies occurs_at(
        text,
        part,
        0,
    ) by {
        assert(text.subrange(0, part.len() as int) =~= part);
    }
}

/// Replacing puts the new part where the old one stood, and leaves the rest. The
/// part may stand nowhere further to the left.
pub proof fn law_first_occurrence_is_replaced(
    front: Seq<char>,
    part: Seq<char>,
    back: Seq<char>,
    by: Seq<char>,
)
    requires
        forall|f: Seq<char>, b: Seq<char>|
            front + part + back == #[trigger] (f + part + b) ==> front.len() <= f.len(),
    ensures
        replaced_first(front + part + back, part, by) == front + by + back,
{
    let text = front + part + back;
    let n = front.len() as int;
    law_occurrences(text, part, n);
    assert(occurs_at(text, part, n));
    assert forall|other: int| other < n implies !occurs_at(text, part, other) by {
        law_occurrences(text, part, other);
    }
    assert(first_at(text, part, n));
    let at = choose|at: int| first_at(text, part, at);
    assert(first_at(text, part, at));
    assert(at == n);
    assert(text.subrange(0, n) =~= front);
    assert(text.subrange(n + part.len(), text.len() as int) =~= back);
}

/// A text without the part stays as it is.
pub proof fn law_nothing_else_is_replaced(text: Seq<char>, part: Seq<char>, by: Seq<char>)
    requires
        forall|f: Seq<char>, b: Seq<char>| text != #[trigger] (f + part + b),
    ensures
        replaced_first(text, part, by) == text,
{
    law_occurrences(text, part, 0);
}

/// Copies of a prefix are dropped one by one, until the text does not begin with
/// the prefix. There is nothing to drop for an empty one.
pub proof fn law_prefixes_are_dropped(prefix: Seq<char>, text: Seq<char>)
    ensures
        prefix.len() > 0 ==> without_prefixes(prefix + text, prefix) == without_prefixes(
            text,
            prefix,
        ),
        prefix.len() == 0 || (forall|rest: Seq<char>| text != #[trigger] (prefix + rest))
            ==> without_prefixes(text, prefix) == text,
{
    law_ends_of_texts(text, prefix);
    law_ends_of_texts(prefix + text, prefix);
    let whole = prefix + text;
    assert(whole.subrange(prefix.len() as int, whole.len() as int) =~= text);
    assert(occurs_at(whole, prefix, 0));
}

/// Turning a text into lower case keeps its length, moves `A` to `Z` by 32 code
/// points and keeps every other character.
pub proof fn law_lower_case(text: Seq<char>)
    ensures
        lowercased(text).len() == text.len(),
        forall|i: int|
            #![trigger text[i]]
            0 <= i < text.len() ==> if 65 <= text[i] as int <= 90 {
                lowercased(text)[i] as int == text[i] as int + 32
            } else {
                lowercased(text)[i] == text[i]
            },
{
}

/// The order of texts: after what two texts have in common at their front,
/// either the first one ends and the second does not, or the first one goes on
/// with the smaller character.
pub proof fn law_order_of_texts(a: Seq<char>, b: Seq<char>)
    ensures
        before(a, b) <==> exists|k: int|
            0 <= k <= a.len() && k < b.len() && a.take(k) == #[trigger] b.take(k) && (k == a.len()
                || (a[k] as int) < (b[k] as int)),
    decreases a.len(),
{
    if b.len() > 0 && a.len() > 0 && a[0] == b[0] {
        let x = a.drop_first();
        let y = b.drop_first();
        law_order_of_texts(x, y);
        if before(x, y) {
            let k = choose|k: int|
                0 <= k <= x.len() && k < y.len() && x.take(k) == #[trigger] y.take(k) && (k
                    == x.len() || (x[k] as int) < (y[k] as int));
            assert(a.take(k + 1) =~= seq![a[0]] + x.take(k));
            assert(b.take(k + 1) =~= seq![b[0]] + y.take(k));
            assert(a.take(k + 1) == b.take(k + 1));
        }
        assert forall|k: int|
            0 <= k <= a.len() && k < b.len() && a.take(k) == #[trigger] b.take(k) && (k == a.len()
                || (a[k] as int) < (b[k] as int)) implies before(x, y) by {
            assert(k > 0);
            assert(x.take(k - 1) =~= a.take(k).drop_first());
            assert(y.take(k - 1) =~= b.take(k).drop_first());
            assert(x.take(k - 1) == y.take(k - 1));
        }
    } else if b.len() > 0 {
        assert(a.take(0) =~= b.take(0));
        assert forall|k: int|
            0 <= k <= a.len() && k < b.len() && a.take(k) == #[trigger] b.take(k) && (k == a.len()
                || (a[k] as int) < (b[k] as int)) implies before(a, b) by {
            if k > 0 {
                assert(a.take(k)[0] == b.take(k)[0]);
            }
        }
    }
}

/// Decimal numerals: a number below 10 is its digit, and a digit is added at the
/// end for ten times as much and that digit. Code point 48 is the zero.
pub proof fn law_decimal_numerals(n: nat, d: nat)
    requires
        d < 10,
    ensures
        decimal(d).len() == 1,
        decimal(d)[0] as int == 48 + d,
        n > 0 ==> decimal(10 * n + d) == decimal(n) + decimal(d),
{
    if n > 0 {
        assert((10 * n + d) / 10 == n);
        assert((10 * n + d) % 10 == d);
        assert(decimal(10 * n + d) =~= decimal(n) + decimal(d));
    }
}

/// Hexadecimal numerals: a number below 16 is its digit, and a digit is added at
/// the end for sixteen times as much and that digit. Code point 48 is the zero
/// and 65 is the `A` that stands for 10.
pub proof fn law_hexadecimal_numerals(n: nat, d: nat)
    requires
        d < 16,
    ensures
        hexadecimal(d).len() == 1,
        hexadecimal(d)[0] as int == if d < 10 {
            48 + d
        } else {
            55 + d
        },
        n > 0 ==> hexadecimal(16 * n + d) == hexadecimal(n) + hexadecimal(d),
{
    assert(d == 0 || d == 1 || d == 2 || d == 3 || d == 4 || d == 5 || d == 6 || d == 7 || d == 8
        || d == 9 || d == 10 || d == 11 || d == 12 || d == 13 || d == 14 || d == 15);
    if n > 0 {
        assert((16 * n + d) / 16 == n);
        assert((16 * n + d) % 16 == d);
        assert(hexadecimal(16 * n + d) =~= hexadecimal(n) + hexadecimal(d));
    }
}

/// Padding adds one zero to a numeral of one digit, and nothing to others.
pub proof fn law_hexadecimal_padding(n: nat)
    ensures
        n < 16 ==> hexadecimal_padded(n) == hexadecimal(0) + hexadecimal(n),
        n >= 16 ==> hexadecimal_padded(n) == hexadecimal(n),
        hexadecimal_padded(n).len() >= 2,
    decreases n,
{
    if n < 16 {
        assert(hexadecimal(0) =~= seq!['0']);
    } else {
        assert(hexadecimal(n / 16).len() > 0);
    }
}

} // verus!
