//! Text primitives: trimming, ASCII case, ordering, decimal numerals and the
//! splitting and joining of lists.
use vstd::prelude::*;

verus! {

/// The characters with the Unicode property `White_Space`.
pub open spec fn is_white_space(c: char) -> bool {
    let n = c as u32;
    ||| 0x9 <= n <= 0xd
    ||| n == 0x20
    ||| n == 0x85
    ||| n == 0xa0
    ||| n == 0x1680
    ||| 0x2000 <= n <= 0x200a
    ||| n == 0x2028
    ||| n == 0x2029
    ||| n == 0x202f
    ||| n == 0x205f
    ||| n == 0x3000
}

/// `s` without its leading white space.
pub open spec fn trim_front(s: Seq<char>) -> Seq<char>
    decreases s.len(),
{
    if s.len() > 0 && is_white_space(s.first()) {
        trim_front(s.drop_first())
    } else {
        s
    }
}

/// `s` without its trailing white space.
pub open spec fn trim_back(s: Seq<char>) -> Seq<char>
    decreases s.len(),
{
    if s.len() > 0 && is_white_space(s.last()) {
        trim_back(s.drop_last())
    } else {
        s
    }
}

/// `s` without the white space at its two ends.
pub open spec fn trimmed(s: Seq<char>) -> Seq<char> {
    trim_back(trim_front(s))
}

/// The lower case of an ASCII letter; any other character as it is.
pub open spec fn ascii_lower_char(c: char) -> char {
    if 'A' <= c <= 'Z' {
        ((c as u32 + 32) as u32) as char
    } else {
        c
    }
}

/// `s` with its ASCII letters in lower case.
pub open spec fn ascii_lower(s: Seq<char>) -> Seq<char> {
    s.map_values(|c: char| ascii_lower_char(c))
}

/// The upper case of an ASCII letter; any other character as it is.
pub open spec fn ascii_upper_char(c: char) -> char {
    if 'a' <= c <= 'z' {
        ((c as u32 - 32) as u32) as char
    } else {
        c
    }
}

/// `s` with its ASCII letters in upper case.
pub open spec fn ascii_upper(s: Seq<char>) -> Seq<char> {
    s.map_values(|c: char| ascii_upper_char(c))
}

/// The upper case of a text by the rules of Unicode.
pub uninterp spec fn upper_text(s: Seq<char>) -> Seq<char>;

/// `s` without the characters `c` at its end.
pub open spec fn strip_trailing(s: Seq<char>, c: char) -> Seq<char>
    decreases s.len(),
{
    if s.len() > 0 && s.last() == c {
        strip_trailing(s.drop_last(), c)
    } else {
        s
    }
}

/// Whether `a` comes before `b` in lexicographic order of code points.
pub open spec fn precedes(a: Seq<char>, b: Seq<char>) -> bool
    decreases b.len(),
{
    if b.len() == 0 {
        false
    } else if a.len() == 0 {
        true
    } else if a.first() == b.first() {
        precedes(a.drop_first(), b.drop_first())
    } else {
        a.first() < b.first()
    }
}

/// The decimal digit that stands for `n < 10`.
pub open spec fn digit(n: nat) -> char {
    ((48 + n) as u32) as char
}

/// The decimal numeral of `n`, without leading zeros.
pub open spec fn decimal(n: nat) -> Seq<char>
    decreases n,
{
    if n < 10 {
        seq![digit(n)]
    } else {
        decimal(n / 10).push(digit(n % 10))
    }
}

/// Whether `s` is a non-empty run of decimal digits.
pub open spec fn is_numeral(s: Seq<char>) -> bool {
    &&& s.len() > 0
    &&& forall|i: int| 0 <= i < s.len() ==> '0' <= #[trigger] s[i] <= '9'
}

/// The number that a run of decimal digits stands for.
pub open spec fn numeral_value(s: Seq<char>) -> nat
    decreases s.len(),
{
    if s.len() == 0 {
        0
    } else {
        numeral_value(s.drop_last()) * 10 + (s.last() as u32 - 48) as nat
    }
}

/// A decimal numeral stands for its number.
pub proof fn lemma_decimal(n: nat)
    ensures
        is_numeral(decimal(n)),
        numeral_value(decimal(n)) == n,
    decreases n,
{
    if n >= 10 {
        lemma_decimal(n / 10);
        assert(decimal(n).drop_last() == decimal(n / 10));
    } else {
        assert(decimal(n).drop_last() == Seq::<char>::empty());
        assert(numeral_value(decimal(n).drop_last()) == 0);
    }
}

/// The number that `s` stands for: decimal digits, after an optional plus sign.
pub open spec fn parsed_number(s: Seq<char>) -> Option<nat> {
    let digits = if s.len() > 0 && s.first() == '+' {
        s.drop_first()
    } else {
        s
    };
    if is_numeral(digits) {
        Some(numeral_value(digits))
    } else {
        None
    }
}

/// The views of the strings of a list.
pub open spec fn texts(list: Seq<String>) -> Seq<Seq<char>> {
    list.map_values(|s: String| s@)
}

/// The elements of `list`, with `sep` between one and the next.
pub open spec fn joined(list: Seq<Seq<char>>, sep: char) -> Seq<char>
    decreases list.len(),
{
    if list.len() == 0 {
        Seq::empty()
    } else if list.len() == 1 {
        list[0]
    } else {
        joined(list.drop_last(), sep).push(sep) + list.last()
    }
}

/// Whether every element of `list` comes before the next.
pub open spec fn ascending(list: Seq<Seq<char>>) -> bool {
    forall|i: int, j: int|
        0 <= i < j < list.len() ==> precedes(#[trigger] list[i], #[trigger] list[j])
}

/// The pieces of `s` between the occurrences of `sep`.
pub open spec fn split_on(s: Seq<char>, sep: char) -> Seq<Seq<char>>
    decreases s.len(),
{
    if s.len() == 0 {
        seq![Seq::empty()]
    } else {
        let rest = split_on(s.drop_last(), sep);
        if s.last() == sep {
            rest.push(Seq::empty())
        } else {
            rest.drop_last().push(rest.last().push(s.last()))
        }
    }
}

/// The pieces with the white space at their ends removed, without those that are blank.
pub open spec fn trimmed_non_blank(pieces: Seq<Seq<char>>) -> Seq<Seq<char>>
    decreases pieces.len(),
{
    if pieces.len() == 0 {
        Seq::empty()
    } else {
        let kept = trimmed_non_blank(pieces.drop_last());
        let piece = trimmed(pieces.last());
        if piece.len() == 0 {
            kept
        } else {
            kept.push(piece)
        }
    }
}

/// A piece after a separator is the last one.
pub proof fn lemma_split_after_separator(a: Seq<char>, b: Seq<char>, sep: char)
    requires
        !b.contains(sep),
    ensures
        split_on(a.push(sep) + b, sep) == split_on(a, sep).push(b),
    decreases b.len(),
{
    let s = a.push(sep) + b;
    if b.len() == 0 {
        assert(s == a.push(sep));
        assert(s.drop_last() == a);
        assert(b == Seq::<char>::empty());
    } else {
        assert(s.drop_last() == a.push(sep) + b.drop_last());
        assert(s.last() == b.last());
        assert(b[b.len() - 1] == b.last());
        assert forall|c: char| b.drop_last().contains(c) implies b.contains(c) by {
            let i = choose|i: int| 0 <= i < b.drop_last().len() && b.drop_last()[i] == c;
            assert(b[i] == c);
        }
        lemma_split_after_separator(a, b.drop_last(), sep);
        let rest = split_on(a, sep).push(b.drop_last());
        assert(rest.drop_last() == split_on(a, sep));
        assert(rest.last().push(b.last()) == b);
    }
}

/// A text without the separator is its only piece.
pub proof fn lemma_split_without_separator(b: Seq<char>, sep: char)
    requires
        !b.contains(sep),
    ensures
        split_on(b, sep) == seq![b],
    decreases b.len(),
{
    if b.len() > 0 {
        assert(b[b.len() - 1] == b.last());
        assert forall|c: char| b.drop_last().contains(c) implies b.contains(c) by {
            let i = choose|i: int| 0 <= i < b.drop_last().len() && b.drop_last()[i] == c;
            assert(b[i] == c);
        }
        lemma_split_without_separator(b.drop_last(), sep);
        assert(b.drop_last().push(b.last()) == b);
    } else {
        assert(b == Seq::<char>::empty());
    }
}

/// Splitting undoes joining: where no element of a non-empty list holds the separator,
/// the pieces of the joined text are the elements.
pub proof fn law_split_of_joined(list: Seq<Seq<char>>, sep: char)
    requires
        list.len() > 0,
        forall|i: int| 0 <= i < list.len() ==> !(#[trigger] list[i]).contains(sep),
    ensures
        split_on(joined(list, sep), sep) == list,
    decreases list.len(),
{
    assert(!list[list.len() - 1].contains(sep));
    if list.len() == 1 {
        lemma_split_without_separator(list[0], sep);
        assert(list == seq![list[0]]);
    } else {
        let init = list.drop_last();
        assert forall|i: int| 0 <= i < init.len() implies !(#[trigger] init[i]).contains(sep) by {
            assert(init[i] == list[i]);
        }
        law_split_of_joined(init, sep);
        lemma_split_after_separator(joined(init, sep), list.last(), sep);
        assert(init.push(list.last()) == list);
    }
}

/// Two ascending lists that hold the same elements are equal.
pub proof fn law_ascending_unique(a: Seq<Seq<char>>, b: Seq<Seq<char>>)
    requires
        ascending(a),
        ascending(b),
        forall|t: Seq<char>| a.contains(t) <==> b.contains(t),
    ensures
        a == b,
    decreases a.len(),
{
    if a.len() == 0 {
        if b.len() > 0 {
            assert(b.contains(b[0]));
            assert(a.contains(b[0]));
        }
        assert(a == b);
    } else {
        assert(a.contains(a[a.len() - 1]));
        assert(b.contains(a.last()));
        assert(b.contains(b[b.len() - 1]));
        assert(a.contains(b.last()));
        let i = choose|i: int| 0 <= i < b.len() && b[i] == a.last();
        let j = choose|j: int| 0 <= j < a.len() && a[j] == b.last();
        if i < b.len() - 1 && j < a.len() - 1 {
            assert(precedes(b[i], b[b.len() - 1]));
            assert(precedes(a[j], a[a.len() - 1]));
            lemma_precedes_transitive(a.last(), b.last(), a.last());
            lemma_precedes_irreflexive(a.last());
        }
        assert(a.last() == b.last());
        let x = a.drop_last();
        let y = b.drop_last();
        assert(ascending(x));
        assert(ascending(y));
        assert forall|t: Seq<char>| x.contains(t) <==> y.contains(t) by {
            lemma_precedes_irreflexive(t);
            if x.contains(t) {
                let k = choose|k: int| 0 <= k < x.len() && x[k] == t;
                assert(a[k] == t);
                assert(precedes(a[k], a[a.len() - 1]));
                assert(a.contains(t));
                let m = choose|m: int| 0 <= m < b.len() && b[m] == t;
                assert(m != b.len() - 1);
                assert(y[m] == t);
            }
            if y.contains(t) {
                let k = choose|k: int| 0 <= k < y.len() && y[k] == t;
                assert(b[k] == t);
                assert(precedes(b[k], b[b.len() - 1]));
                assert(b.contains(t));
                let m = choose|m: int| 0 <= m < a.len() && a[m] == t;
                assert(m != a.len() - 1);
                assert(x[m] == t);
            }
        }
        law_ascending_unique(x, y);
        assert(a == x.push(a.last()));
        assert(b == y.push(b.last()));
    }
}

/// What two lists hold together is what one or the other holds.
pub proof fn lemma_contains_sum(a: Seq<Seq<char>>, b: Seq<Seq<char>>, t: Seq<char>)
    ensures
        (a + b).contains(t) <==> a.contains(t) || b.contains(t),
{
    let s = a + b;
    if a.contains(t) {
        let i = choose|i: int| 0 <= i < a.len() && a[i] == t;
        assert(s[i] == t);
    }
    if b.contains(t) {
        let i = choose|i: int| 0 <= i < b.len() && b[i] == t;
        assert(s[a.len() + i] == t);
    }
    if s.contains(t) {
        let i = choose|i: int| 0 <= i < s.len() && s[i] == t;
        if i < a.len() {
            assert(a[i] == t);
        } else {
            assert(b[i - a.len()] == t);
        }
    }
}

/// No text comes before itself.
pub proof fn lemma_precedes_irreflexive(a: Seq<char>)
    ensures
        !precedes(a, a),
    decreases a.len(),
{
    if a.len() > 0 {
        lemma_precedes_irreflexive(a.drop_first());
    }
}

/// What comes before a text comes before what follows it.
pub proof fn lemma_precedes_transitive(a: Seq<char>, b: Seq<char>, c: Seq<char>)
    requires
        precedes(a, b),
        precedes(b, c),
    ensures
        precedes(a, c),
    decreases c.len(),
{
    if a.len() > 0 && a.first() == b.first() && b.first() == c.first() {
        lemma_precedes_transitive(a.drop_first(), b.drop_first(), c.drop_first());
    }
}

/// Whether `c` has the Unicode property `White_Space`.
pub fn white_space(c: char) -> (r: bool)
    ensures
        r == is_white_space(c),
{
    let n: u32 = c as u32;
    (0x9 <= n && n <= 0xd) || n == 0x20 || n == 0x85 || n == 0xa0 || n == 0x1680 || (0x2000 <= n
        && n <= 0x200a) || n == 0x2028 || n == 0x2029 || n == 0x202f || n == 0x205f || n == 0x3000
}

/// `String::push` appends one character to the end of the string.
pub assume_specification[ String::push ](s: &mut String, c: char)
    ensures
        final(s)@ == old(s)@.push(c),
;

/// `str::to_uppercase` depends on the text alone, and in an ASCII text it changes the letters a to
/// z and nothing else.
#[verifier::external_body]
pub(crate) fn to_uppercase(s: &str) -> (r: String)
    ensures
        r@ == upper_text(s@),
        s.is_ascii() ==> r@ == ascii_upper(s@),
{
    s.to_uppercase()
}

/// The characters of `s`.
pub fn chars_of(s: &str) -> (r: Vec<char>)
    ensures
        r@ == s@,
{
    let mut r: Vec<char> = Vec::new();
    for c in it: s.chars()
        invariant
            r@ == s@.take(it.index()),
            it.seq() == s@,
    {
        r.push(c);
    }
    r
}

/// The string made of `chars[from..to]`.
pub fn string_of(chars: &Vec<char>, from: usize, to: usize) -> (r: String)
    requires
        from <= to <= chars@.len(),
    ensures
        r@ == chars@.subrange(from as int, to as int),
{
    let mut r = String::new();
    let mut i: usize = from;
    while i < to
        invariant
            from <= i <= to <= chars@.len(),
            r@ == chars@.subrange(from as int, i as int),
        decreases to - i,
    {
        r.push(chars[i]);
        i = i + 1;
    }
    r
}

/// Whether two strings are equal.
pub fn same_text(a: &str, b: &str) -> (r: bool)
    ensures
        r == (a@ == b@),
{
    a.to_owned() == b.to_owned()
}

/// `s` without the white space at its two ends.
pub fn trim(s: &str) -> (r: String)
    ensures
        r@ == trimmed(s@),
{
    let chars = chars_of(s);
    let mut from: usize = 0;
    assert(chars@.skip(0) == s@);
    while from < chars.len() && white_space(chars[from])
        invariant
            from <= chars@.len(),
            chars@ == s@,
            trim_front(s@) == trim_front(chars@.skip(from as int)),
        decreases chars@.len() - from,
    {
        assert(chars@.skip(from as int).drop_first() == chars@.skip(from + 1));
        from = from + 1;
    }
    let ghost front = chars@.skip(from as int);
    let mut to: usize = chars.len();
    while from < to && white_space(chars[to - 1])
        invariant
            from <= to <= chars@.len(),
            front == chars@.skip(from as int),
            trim_back(front) == trim_back(chars@.subrange(from as int, to as int)),
        decreases to - from,
    {
        assert(chars@.subrange(from as int, to as int).drop_last() == chars@.subrange(
            from as int,
            to - 1,
        ));
        to = to - 1;
    }
    string_of(&chars, from, to)
}

/// `s` with its ASCII letters in lower case.
pub fn to_ascii_lowercase(s: &str) -> (r: String)
    ensures
        r@ == ascii_lower(s@),
{
    let chars = chars_of(s);
    let mut r = String::new();
    let mut i: usize = 0;
    while i < chars.len()
        invariant
            i <= chars@.len(),
            r@ == ascii_lower(chars@.take(i as int)),
        decreases chars@.len() - i,
    {
        let c = chars[i];
        if 'A' <= c && c <= 'Z' {
            let lower: u8 = (c as u8) + 32;
            r.push(lower as char);
        } else {
            r.push(c);
        }
        i = i + 1;
    }
    assert(chars@.take(i as int) == s@);
    r
}

/// `s` without the characters `c` at its end.
pub fn trim_end_matches(s: &str, c: char) -> (r: String)
    ensures
        r@ == strip_trailing(s@, c),
{
    let chars = chars_of(s);
    let mut to: usize = chars.len();
    assert(chars@.take(to as int) == s@);
    while 0 < to && chars[to - 1] == c
        invariant
            to <= chars@.len(),
            strip_trailing(s@, c) == strip_trailing(chars@.take(to as int), c),
        decreases to,
    {
        assert(chars@.take(to as int).drop_last() == chars@.take(to - 1));
        to = to - 1;
    }
    string_of(&chars, 0, to)
}

/// Where one string stands in relation to another.
#[derive(Clone, Copy, PartialEq, Eq, Structural)]
pub enum Place {
    Before,
    Same,
    After,
}

/// Where `a` stands in relation to `b` in lexicographic order of code points.
pub fn place_of(a: &str, b: &str) -> (r: Place)
    ensures
        r == Place::Before <==> precedes(a@, b@),
        r == Place::Same <==> a@ == b@,
        r == Place::After <==> precedes(b@, a@),
{
    let x = chars_of(a);
    let y = chars_of(b);
    let mut i: usize = 0;
    proof {
        assert(x@.skip(0) == a@);
        assert(y@.skip(0) == b@);
        lemma_precedes_irreflexive(a@);
        lemma_precedes_irreflexive(b@);
    }
    while i < x.len() && i < y.len() && x[i] == y[i]
        invariant
            i <= x@.len(),
            i <= y@.len(),
            x@ == a@,
            y@ == b@,
            x@.take(i as int) == y@.take(i as int),
            precedes(a@, b@) == precedes(x@.skip(i as int), y@.skip(i as int)),
            precedes(b@, a@) == precedes(y@.skip(i as int), x@.skip(i as int)),
        decreases x@.len() - i,
    {
        proof {
            assert(x@.skip(i as int).drop_first() == x@.skip(i + 1));
            assert(y@.skip(i as int).drop_first() == y@.skip(i + 1));
            assert(x@.take(i + 1) == x@.take(i as int).push(x@[i as int]));
            assert(y@.take(i + 1) == y@.take(i as int).push(y@[i as int]));
        }
        i = i + 1;
    }
    if i == x.len() {
        if i == y.len() {
            assert(x@.take(i as int) == x@);
            assert(y@.take(i as int) == y@);
            Place::Same
        } else {
            Place::Before
        }
    } else if i == y.len() {
        Place::After
    } else if x[i] < y[i] {
        Place::Before
    } else {
        Place::After
    }
}

/// Appends the decimal numeral of `n` to `out`.
pub fn push_decimal(out: &mut String, n: u64)
    ensures
        final(out)@ == old(out)@ + decimal(n as nat),
    decreases n,
{
    if n >= 10 {
        push_decimal(out, n / 10);
    }
    let d: u8 = 48 + (n % 10) as u8;
    out.push(d as char);
}

/// The number that `s` stands for, if it fits in 16 bits.
pub fn parse_u16(s: &str) -> (r: Option<u16>)
    ensures
        match parsed_number(s@) {
            Some(n) => if n <= u16::MAX {
                r == Some(n as u16)
            } else {
                r is None
            },
            None => r is None,
        },
{
    let chars = chars_of(s);
    let from: usize = if chars.len() > 0 && chars[0] == '+' {
        1
    } else {
        0
    };
    let ghost digits = chars@.skip(from as int);
    proof {
        assert(chars@.skip(0) == chars@);
        assert(chars@.len() > 0 ==> chars@.skip(1) == chars@.drop_first());
    }
    if from == chars.len() {
        return None;
    }
    let mut value: u32 = 0;
    let mut over: bool = false;
    let mut i: usize = from;
    while i < chars.len()
        invariant
            from <= i <= chars@.len(),
            digits == chars@.skip(from as int),
            digits.len() > 0,
            forall|j: int| 0 <= j < i - from ==> '0' <= #[trigger] digits[j] <= '9',
            over ==> numeral_value(digits.take(i - from)) > u16::MAX,
            !over ==> value == numeral_value(digits.take(i - from)) && value <= u16::MAX,
            parsed_number(s@) == (if is_numeral(digits) {
                Some(numeral_value(digits))
            } else {
                None
            }),
        decreases chars@.len() - i,
    {
        let c = chars[i];
        assert(c == digits[i - from]);
        if c < '0' || '9' < c {
            return None;
        }
        assert(digits.take(i - from + 1).drop_last() == digits.take(i - from));
        if !over {
            value = value * 10 + (c as u32 - 48);
            if value > 65535 {
                over = true;
            }
        }
        i = i + 1;
    }
    assert(digits.take(i - from) == digits);
    if over {
        None
    } else {
        Some(value as u16)
    }
}

/// The first `upto` elements of `list`, with `sep` between one and the next.
pub fn join(list: &Vec<String>, sep: char, upto: usize) -> (r: String)
    requires
        upto <= list@.len(),
    ensures
        r@ == joined(texts(list@).take(upto as int), sep),
{
    let mut r = String::new();
    let ghost all = texts(list@);
    let mut i: usize = 0;
    while i < upto
        invariant
            i <= upto <= list@.len(),
            all == texts(list@),
            r@ == joined(all.take(i as int), sep),
        decreases upto - i,
    {
        if i > 0 {
            r.push(sep);
        }
        proof {
            assert(all.take(i + 1).drop_last() == all.take(i as int));
            assert(all.take(i + 1).last() == list@[i as int]@);
        }
        r.append(list[i].as_str());
        i = i + 1;
    }
    r
}

/// A copy of a list.
pub fn clone_texts(list: &Vec<String>) -> (r: Vec<String>)
    ensures
        texts(r@) == texts(list@),
{
    let mut r: Vec<String> = Vec::new();
    let ghost all = texts(list@);
    let mut i: usize = 0;
    while i < list.len()
        invariant
            i <= list@.len(),
            all == texts(list@),
            texts(r@) == all.take(i as int),
        decreases list@.len() - i,
    {
        let ghost was = texts(r@);
        r.push(list[i].clone());
        proof {
            assert(texts(r@) == was.push(all[i as int]));
            assert(all.take(i + 1) == was.push(all[i as int]));
        }
        i = i + 1;
    }
    assert(all.take(i as int) == all);
    r
}

/// `list`, followed by the elements of `more`.
pub fn extended(list: Vec<String>, more: &Vec<String>) -> (r: Vec<String>)
    ensures
        texts(r@) == texts(list@) + texts(more@),
{
    let mut r = list;
    let ghost start = texts(list@);
    let ghost all = texts(more@);
    let mut i: usize = 0;
    assert(start + all.take(0) == start);
    while i < more.len()
        invariant
            i <= more@.len(),
            all == texts(more@),
            texts(r@) == start + all.take(i as int),
        decreases more@.len() - i,
    {
        let ghost was = texts(r@);
        r.push(more[i].clone());
        proof {
            assert(texts(r@) == was.push(all[i as int]));
            assert(start + all.take(i + 1) == was.push(all[i as int]));
        }
        i = i + 1;
    }
    assert(all.take(i as int) == all);
    r
}

/// Puts `s` in its place in an ascending list, unless it is there already.
pub fn insert_ascending(list: &mut Vec<String>, s: String)
    requires
        ascending(texts(old(list)@)),
    ensures
        ascending(texts(final(list)@)),
        forall|t: Seq<char>|
            texts(final(list)@).contains(t) <==> texts(old(list)@).contains(t) || t == s@,
{
    let ghost before = texts(list@);
    let ghost whole = list@;
    let mut i: usize = 0;
    while i < list.len()
        invariant
            i <= list@.len(),
            list@ == whole,
            whole == old(list)@,
            before == texts(whole),
            ascending(before),
            forall|k: int| 0 <= k < i ==> precedes(#[trigger] before[k], s@),
        decreases list@.len() - i,
    {
        match place_of(s.as_str(), list[i].as_str()) {
            Place::Before => {
                let ghost t = s@;
                list.insert(i, s);
                proof {
                    let after = texts(list@);
                    assert(after == before.insert(i as int, t));
                    assert forall|a: int, b: int| 0 <= a < b < after.len() implies precedes(
                        #[trigger] after[a],
                        #[trigger] after[b],
                    ) by {
                        if a < i && b > i {
                            assert(precedes(before[a], before[b - 1]));
                        } else if a == i && b > i + 1 {
                            assert(precedes(before[i as int], before[b - 1]));
                            lemma_precedes_transitive(t, before[i as int], before[b - 1]);
                        } else if a > i {
                            assert(precedes(before[a - 1], before[b - 1]));
                        } else if b < i {
                            assert(precedes(before[a], before[b]));
                        }
                    }
                    assert forall|u: Seq<char>|
                        after.contains(u) <==> before.contains(u) || u == t by {
                        if before.contains(u) {
                            let k = choose|k: int| 0 <= k < before.len() && before[k] == u;
                            if k < i {
                                assert(after[k] == u);
                            } else {
                                assert(after[k + 1] == u);
                            }
                        }
                        assert(after[i as int] == t);
                        if after.contains(u) {
                            let k = choose|k: int| 0 <= k < after.len() && after[k] == u;
                            if k < i {
                                assert(before[k] == u);
                            } else if k > i {
                                assert(before[k - 1] == u);
                            }
                        }
                    }
                }
                return ;
            },
            Place::Same => {
                assert(before[i as int] == s@);
                assert(before.contains(s@));
                return ;
            },
            Place::After => {
                assert(before[i as int] == list@[i as int]@);
            },
        }
        i = i + 1;
    }
    let ghost t = s@;
    list.push(s);
    proof {
        let after = texts(list@);
        assert(after == before.push(t));
        assert forall|u: Seq<char>| after.contains(u) <==> before.contains(u) || u == t by {
            if before.contains(u) {
                let k = choose|k: int| 0 <= k < before.len() && before[k] == u;
                assert(after[k] == u);
            }
            assert(after[before.len() as int] == t);
        }
    }
}

/// The elements of `list` in ascending order, each once.
pub fn sort_dedup(list: Vec<String>) -> (r: Vec<String>)
    ensures
        ascending(texts(r@)),
        forall|t: Seq<char>| texts(r@).contains(t) <==> texts(list@).contains(t),
{
    let mut r: Vec<String> = Vec::new();
    let ghost all = texts(list@);
    let mut i: usize = 0;
    while i < list.len()
        invariant
            i <= list@.len(),
            all == texts(list@),
            ascending(texts(r@)),
            forall|t: Seq<char>| texts(r@).contains(t) <==> all.take(i as int).contains(t),
        decreases list@.len() - i,
    {
        let ghost seen = all.take(i as int);
        insert_ascending(&mut r, list[i].clone());
        proof {
            let next = all.take(i + 1);
            assert(next == seen.push(all[i as int]));
            assert forall|t: Seq<char>| next.contains(t) <==> seen.contains(t) || t
                == list@[i as int]@ by {
                if seen.contains(t) {
                    let k = choose|k: int| 0 <= k < seen.len() && seen[k] == t;
                    assert(next[k] == t);
                }
                assert(next[i as int] == list@[i as int]@);
            }
        }
        i = i + 1;
    }
    assert(all.take(i as int) == all);
    r
}

/// The pieces of `s` between line feeds, with the white space at their ends removed,
/// without those that are blank; the first `limit` of them.
pub fn non_blank_lines(s: &str, limit: usize) -> (r: Vec<String>)
    ensures
        texts(r@) == trimmed_non_blank(split_on(s@, '\n')).take(
            if trimmed_non_blank(split_on(s@, '\n')).len() < limit {
                trimmed_non_blank(split_on(s@, '\n')).len() as int
            } else {
                limit as int
            },
        ),
{
    let chars = chars_of(s);
    let mut r: Vec<String> = Vec::new();
    let mut piece = String::new();
    let ghost mut kept: Seq<Seq<char>> = Seq::empty();
    let mut i: usize = 0;
    proof {
        assert(chars@.take(0) == Seq::<char>::empty());
        let first = split_on(chars@.take(0), '\n');
        assert(first.drop_last() == Seq::<Seq<char>>::empty());
        assert(texts(r@) == kept.take(0));
    }
    loop
        invariant_except_break
            i <= chars@.len(),
            ({
                let pieces = split_on(chars@.take(i as int), '\n');
                &&& pieces.len() > 0
                &&& piece@ == pieces.last()
                &&& kept == trimmed_non_blank(pieces.drop_last())
            }),
        invariant
            chars@ == s@,
            r@.len() <= limit,
            r@.len() <= kept.len(),
            r@.len() < kept.len() ==> r@.len() == limit,
            texts(r@) == kept.take(r@.len() as int),
        ensures
            kept == trimmed_non_blank(split_on(s@, '\n')),
        decreases chars@.len() - i,
    {
        let ghost pieces = split_on(chars@.take(i as int), '\n');
        if i < chars.len() && chars[i] != '\n' {
            proof {
                assert(chars@.take(i + 1).drop_last() == chars@.take(i as int));
                let next = split_on(chars@.take(i + 1), '\n');
                assert(next.drop_last() == pieces.drop_last());
            }
            piece.push(chars[i]);
            i = i + 1;
        } else {
            let t = trim(piece.as_str());
            let ghost done = kept;
            if !t.as_str().is_empty() {
                proof {
                    kept = kept.push(t@);
                }
                if r.len() < limit {
                    let ghost was = r@;
                    r.push(t);
                    assert(texts(r@) == texts(was).push(t@));
                    assert(texts(r@) == kept.take(r@.len() as int));
                } else {
                    assert(kept.take(r@.len() as int) == done.take(r@.len() as int));
                }
            }
            assert(pieces.drop_last().push(pieces.last()) == pieces);
            if i == chars.len() {
                assert(chars@.take(i as int) == s@);
                break;
            }
            proof {
                assert(chars@.take(i + 1).drop_last() == chars@.take(i as int));
                let next = split_on(chars@.take(i + 1), '\n');
                assert(next == pieces.push(Seq::empty()));
                assert(next.drop_last() == pieces);
            }
            piece = String::new();
            i = i + 1;
        }
    }
    r
}

/// The white space of Unicode is made of these characters and no others.
pub proof fn law_white_space_characters(c: char)
    ensures
        is_white_space(c) <==> seq![
            0x9u32,
            0xa,
            0xb,
            0xc,
            0xd,
            0x20,
            0x85,
            0xa0,
            0x1680,
            0x2000,
            0x2001,
            0x2002,
            0x2003,
            0x2004,
            0x2005,
            0x2006,
            0x2007,
            0x2008,
            0x2009,
            0x200a,
            0x2028,
            0x2029,
            0x202f,
            0x205f,
            0x3000,
        ].contains(c as u32),
{
    let list = seq![
        0x9u32,
        0xa,
        0xb,
        0xc,
        0xd,
        0x20,
        0x85,
        0xa0,
        0x1680,
        0x2000,
        0x2001,
        0x2002,
        0x2003,
        0x2004,
        0x2005,
        0x2006,
        0x2007,
        0x2008,
        0x2009,
        0x200a,
        0x2028,
        0x2029,
        0x202f,
        0x205f,
        0x3000,
    ];
    let n = c as u32;
    assert(list.len() == 25);
    if 0x9 <= n <= 0xd {
        assert(list[n - 9] == n);
    } else if 0x2000 <= n <= 0x200a {
        assert(list[n - 0x2000 + 9] == n);
    }
    assert(list[5] == 0x20 && list[6] == 0x85 && list[7] == 0xa0 && list[8] == 0x1680);
    assert(list[20] == 0x2028 && list[21] == 0x2029 && list[22] == 0x202f);
    assert(list[23] == 0x205f && list[24] == 0x3000);
}

proof fn lemma_trim_front(s: Seq<char>) -> (i: int)
    ensures
        0 <= i <= s.len(),
        trim_front(s) == s.skip(i),
        forall|k: int| 0 <= k < i ==> is_white_space(#[trigger] s[k]),
        i < s.len() ==> !is_white_space(s[i]),
    decreases s.len(),
{
    if s.len() > 0 && is_white_space(s.first()) {
        let i = lemma_trim_front(s.drop_first()) + 1;
        assert(s.drop_first().skip(i - 1) == s.skip(i));
        assert forall|k: int| 0 <= k < i implies is_white_space(#[trigger] s[k]) by {
            if k > 0 {
                assert(s.drop_first()[k - 1] == s[k]);
            }
        }
        i
    } else {
        assert(s.skip(0) == s);
        0
    }
}

proof fn lemma_trim_back(s: Seq<char>) -> (j: int)
    ensures
        0 <= j <= s.len(),
        trim_back(s) == s.take(j),
        forall|k: int| j <= k < s.len() ==> is_white_space(#[trigger] s[k]),
        j > 0 ==> !is_white_space(s[j - 1]),
    decreases s.len(),
{
    if s.len() > 0 && is_white_space(s.last()) {
        let j = lemma_trim_back(s.drop_last());
        assert(s.drop_last().take(j) == s.take(j));
        assert forall|k: int| j <= k < s.len() implies is_white_space(#[trigger] s[k]) by {
            if k < s.len() - 1 {
                assert(s.drop_last()[k] == s[k]);
            }
        }
        j
    } else {
        assert(s.take(s.len() as int) == s);
        s.len() as int
    }
}

/// Trimming takes off the two ends of a text, all white space at them and nothing else: what is
/// left is `s[i..j]` for the `i` and `j` returned.
pub proof fn law_trimmed(s: Seq<char>) -> (r: (int, int))
    ensures
        0 <= r.0 <= r.1 <= s.len(),
        trimmed(s) == s.subrange(r.0, r.1),
        forall|k: int| 0 <= k < r.0 || r.1 <= k < s.len() ==> is_white_space(#[trigger] s[k]),
        r.0 < r.1 ==> !is_white_space(s[r.0]) && !is_white_space(s[r.1 - 1]),
{
    let i = lemma_trim_front(s);
    let front = s.skip(i);
    let j = lemma_trim_back(front);
    assert(front.take(j) == s.subrange(i, i + j));
    assert forall|k: int| i + j <= k < s.len() implies is_white_space(#[trigger] s[k]) by {
        assert(front[k - i] == s[k]);
    }
    if front.len() > 0 && j == 0 {
        assert(front[0] == s[i]);
    }
    if j > 0 {
        assert(front[j - 1] == s[i + j - 1]);
    }
    (i, i + j)
}

/// Lower case changes the letters A to Z to a to z, each in its place, and nothing else.
pub proof fn law_ascii_lower(s: Seq<char>)
    ensures
        ascii_lower(s).len() == s.len(),
        forall|i: int|
            0 <= i < s.len() ==> (#[trigger] ascii_lower(s)[i]) as u32 == (if 'A' <= s[i] <= 'Z' {
                s[i] as u32 - 'A' as u32 + 'a' as u32
            } else {
                s[i] as int
            }),
{
}

/// Upper case changes the letters a to z to A to Z, each in its place, and nothing else.
pub proof fn law_ascii_upper(s: Seq<char>)
    ensures
        ascii_upper(s).len() == s.len(),
        forall|i: int|
            0 <= i < s.len() ==> (#[trigger] ascii_upper(s)[i]) as u32 == (if 'a' <= s[i] <= 'z' {
                s[i] as u32 - 'a' as u32 + 'A' as u32
            } else {
                s[i] as int
            }),
{
}

/// What is stripped from the end of a text is all of the characters `c` there and nothing else:
/// the first `k` characters are left, for the `k` returned.
pub proof fn law_strip_trailing(s: Seq<char>, c: char) -> (k: int)
    ensures
        0 <= k <= s.len(),
        strip_trailing(s, c) == s.take(k),
        forall|j: int| k <= j < s.len() ==> #[trigger] s[j] == c,
        k > 0 ==> s[k - 1] != c,
    decreases s.len(),
{
    if s.len() > 0 && s.last() == c {
        let k = law_strip_trailing(s.drop_last(), c);
        assert(s.drop_last().take(k) == s.take(k));
        assert forall|j: int| k <= j < s.len() implies #[trigger] s[j] == c by {
            if j < s.len() - 1 {
                assert(s.drop_last()[j] == s[j]);
            }
        }
        k
    } else {
        assert(s.take(s.len() as int) == s);
        s.len() as int
    }
}

/// The order of texts is that of a dictionary: a text comes before another where it is the
/// beginning of it, or has the lesser character where the two first differ.
pub proof fn law_precedes(a: Seq<char>, b: Seq<char>)
    ensures
        precedes(a, b) <==> exists|k: int|
            0 <= k <= a.len() && k < b.len() && #[trigger] a.take(k) == b.take(k) && (k == a.len()
                || a[k] < b[k]),
    decreases b.len(),
{
    if b.len() > 0 && a.len() > 0 && a.first() == b.first() {
        let (x, y) = (a.drop_first(), b.drop_first());
        law_precedes(x, y);
        if precedes(x, y) {
            let k = choose|k: int|
                0 <= k <= x.len() && k < y.len() && #[trigger] x.take(k) == y.take(k) && (k
                    == x.len() || x[k] < y[k]);
            assert(a.take(k + 1) == seq![a[0]] + x.take(k));
            assert(b.take(k + 1) == seq![b[0]] + y.take(k));
        }
        if exists|k: int|
            0 <= k <= a.len() && k < b.len() && #[trigger] a.take(k) == b.take(k) && (k == a.len()
                || a[k] < b[k]) {
            let k = choose|k: int|
                0 <= k <= a.len() && k < b.len() && #[trigger] a.take(k) == b.take(k) && (k
                    == a.len() || a[k] < b[k]);
            assert(k > 0);
            assert(x.take(k - 1) == a.take(k).drop_first());
            assert(y.take(k - 1) == b.take(k).drop_first());
        }
    } else if b.len() > 0 {
        assert(a.take(0) == b.take(0));
        if a.len() > 0 {
            assert forall|k: int|
                0 < k <= a.len() && k < b.len() implies #[trigger] a.take(k) != b.take(k) by {
                assert(a.take(k)[0] == a[0]);
                assert(b.take(k)[0] == b[0]);
            }
        }
    }
}

proof fn lemma_pow_step(base: int, k: nat)
    requires
        base > 0,
    ensures
        vstd::arithmetic::power::pow(base, 0) == 1,
        vstd::arithmetic::power::pow(base, k) > 0,
        vstd::arithmetic::power::pow(base, k + 1) == base * vstd::arithmetic::power::pow(base, k),
{
    vstd::arithmetic::power::lemma_pow0(base);
    vstd::arithmetic::power::lemma_pow_positive(base, k);
    reveal(vstd::arithmetic::power::pow);
}

/// Each digit of a numeral is the one that decimal notation has in its place, counted from the
/// end, and there is no zero at the front.
pub proof fn law_decimal(n: nat)
    ensures
        decimal(n).len() > 0,
        decimal(n).len() > 1 ==> decimal(n)[0] != '0',
        n < vstd::arithmetic::power::pow(10, decimal(n).len()),
        forall|k: nat|
            #![trigger vstd::arithmetic::power::pow(10, k)]
            k < decimal(n).len() ==> decimal(n)[decimal(n).len() - 1 - k] as u32 - '0' as u32 == (n
                as int / vstd::arithmetic::power::pow(10, k)) % 10,
    decreases n,
{
    let s = decimal(n);
    if n < 10 {
        lemma_pow_step(10, 0);
    } else {
        let t = decimal(n / 10);
        law_decimal(n / 10);
        lemma_pow_step(10, t.len());
        assert(s.len() == t.len() + 1);
        assert(s[0] == t[0]);
        if t.len() == 1 {
            lemma_pow_step(10, 0);
            assert(t[0] as u32 - '0' as u32 == ((n / 10) as int / vstd::arithmetic::power::pow(
                10,
                0,
            )) % 10);
        }
    }
    assert forall|k: nat|
        #![trigger vstd::arithmetic::power::pow(10, k)]
        k < s.len() implies s[s.len() - 1 - k] as u32 - '0' as u32 == (n as int
        / vstd::arithmetic::power::pow(10, k)) % 10 by {
        lemma_pow_step(10, k);
        if k > 0 {
            let t = decimal(n / 10);
            let j = (k - 1) as nat;
            lemma_pow_step(10, j);
            assert(s[s.len() - 1 - k] == t[t.len() - 1 - j]);
            let p = vstd::arithmetic::power::pow(10, j);
            vstd::arithmetic::div_mod::lemma_div_denominator(n as int, 10, p);
            assert(vstd::arithmetic::power::pow(10, k) == 10 * p);
            assert((n / 10) as int / p == n as int / (10 * p));
        } else {
            assert(vstd::arithmetic::power::pow(10, k) == 1);
            assert(n as int / vstd::arithmetic::power::pow(10, k) == n) by {
                vstd::arithmetic::div_mod::lemma_div_basics(n as int);
            }
        }
    }
}

/// A run of digits stands for the number that decimal notation gives it: each of its digits is in
/// the place, counted from the end, that the number has it in.
pub proof fn law_numeral_value(s: Seq<char>)
    requires
        is_numeral(s),
    ensures
        numeral_value(s) < vstd::arithmetic::power::pow(10, s.len()),
        forall|k: nat|
            #![trigger vstd::arithmetic::power::pow(10, k)]
            k < s.len() ==> s[s.len() - 1 - k] as u32 - '0' as u32 == (numeral_value(s) as int
                / vstd::arithmetic::power::pow(10, k)) % 10,
    decreases s.len(),
{
    let t = s.drop_last();
    let n = numeral_value(s);
    let d = s.last() as u32 - 48;
    assert(s.last() == s[s.len() - 1]);
    lemma_pow_step(10, t.len());
    lemma_pow_step(10, 0);
    if t.len() > 0 {
        assert forall|i: int| 0 <= i < t.len() implies '0' <= #[trigger] t[i] <= '9' by {
            assert(t[i] == s[i]);
        }
        law_numeral_value(t);
    } else {
        assert(numeral_value(t) == 0);
    }
    assert(n == numeral_value(t) * 10 + d);
    assert(n / 10 == numeral_value(t) && n % 10 == d);
    assert forall|k: nat|
        #![trigger vstd::arithmetic::power::pow(10, k)]
        k < s.len() implies s[s.len() - 1 - k] as u32 - '0' as u32 == (n as int
        / vstd::arithmetic::power::pow(10, k)) % 10 by {
        lemma_pow_step(10, k);
        if k > 0 {
            let j = (k - 1) as nat;
            lemma_pow_step(10, j);
            assert(s[s.len() - 1 - k] == t[t.len() - 1 - j]);
            let p = vstd::arithmetic::power::pow(10, j);
            vstd::arithmetic::div_mod::lemma_div_denominator(n as int, 10, p);
            assert(vstd::arithmetic::power::pow(10, k) == 10 * p);
            assert((n / 10) as int / p == n as int / (10 * p));
        } else {
            assert(vstd::arithmetic::power::pow(10, k) == 1);
            assert(n as int / vstd::arithmetic::power::pow(10, k) == n) by {
                vstd::arithmetic::div_mod::lemma_div_basics(n as int);
            }
        }
    }
}

/// A text is read as a number where it is a run of digits, or one after a single plus sign, and
/// nowhere else; the plus sign changes nothing.
pub proof fn law_parsed_number(s: Seq<char>, digits: Seq<char>)
    requires
        is_numeral(digits),
    ensures
        parsed_number(digits) == Some(numeral_value(digits)),
        parsed_number(seq!['+'] + digits) == Some(numeral_value(digits)),
        parsed_number(s) is Some ==> is_numeral(s) || s.len() > 1 && s[0] == '+' && is_numeral(
            s.skip(1),
        ),
{
    assert(digits[0] != '+');
    assert((seq!['+'] + digits).drop_first() == digits);
    assert((seq!['+'] + digits).first() == '+');
    if s.len() > 0 && s.first() == '+' {
        assert(s.drop_first() == s.skip(1));
    }
}

/// A run of digits is made of the digits 0 to 9 alone, and has at least one.
pub proof fn law_numeral_digits(s: Seq<char>)
    ensures
        is_numeral(s) <==> s.len() > 0 && forall|i: int|
            0 <= i < s.len() ==> "0123456789"@.contains(#[trigger] s[i]),
{
    reveal_strlit("0123456789");
    let ten = "0123456789"@;
    assert forall|c: char| '0' <= c <= '9' <==> #[trigger] ten.contains(c) by {
        if '0' <= c <= '9' {
            assert(ten[c as int - 48] == c);
        }
    }
}

/// A joined list grows by the separator and the next element; a list of one element is that
/// element.
pub proof fn law_joined_grows(list: Seq<Seq<char>>, x: Seq<char>, sep: char)
    ensures
        joined(Seq::empty(), sep) == Seq::<char>::empty(),
        joined(seq![x], sep) == x,
        list.len() > 0 ==> joined(list.push(x), sep) == joined(list, sep) + seq![sep] + x,
{
    assert(list.push(x).drop_last() == list);
    assert(joined(list, sep) + seq![sep] == joined(list, sep).push(sep));
}

/// Joining undoes splitting, and no piece holds the separator.
pub proof fn law_joined_of_split(s: Seq<char>, sep: char)
    ensures
        split_on(s, sep).len() > 0,
        joined(split_on(s, sep), sep) == s,
        forall|i: int|
            0 <= i < split_on(s, sep).len() ==> !(#[trigger] split_on(s, sep)[i]).contains(sep),
    decreases s.len(),
{
    let all = split_on(s, sep);
    if s.len() == 0 {
        assert(all == seq![Seq::<char>::empty()]);
    } else {
        let rest = split_on(s.drop_last(), sep);
        law_joined_of_split(s.drop_last(), sep);
        assert(s == s.drop_last().push(s.last()));
        if s.last() == sep {
            law_joined_grows(rest, Seq::empty(), sep);
            assert(joined(all, sep) == s);
        } else {
            let init = rest.drop_last();
            let piece = rest.last();
            assert(rest == init.push(piece));
            assert(!rest[rest.len() - 1].contains(sep));
            assert forall|i: int| 0 <= i < piece.push(s.last()).len() implies piece.push(
                s.last(),
            )[i] != sep by {
                if i < piece.len() {
                    assert(piece.contains(piece[i]));
                }
            }
            assert forall|i: int| 0 <= i < all.len() implies !(#[trigger] all[i]).contains(sep) by {
                if i < init.len() {
                    assert(all[i] == rest[i]);
                }
            }
            if init.len() > 0 {
                law_joined_grows(init, piece, sep);
                law_joined_grows(init, piece.push(s.last()), sep);
            } else {
                assert(rest == seq![piece]);
                assert(all == seq![piece.push(s.last())]);
            }
            assert(joined(all, sep) == s);
        }
    }
}

/// Which pieces are kept is decided for each of them alone: a blank one is dropped, any other is
/// kept without the white space around it, and the order stays.
pub proof fn law_trimmed_non_blank(a: Seq<Seq<char>>, b: Seq<Seq<char>>, x: Seq<char>)
    ensures
        trimmed_non_blank(a + b) == trimmed_non_blank(a) + trimmed_non_blank(b),
        trimmed_non_blank(seq![x]) == (if forall|i: int|
            0 <= i < x.len() ==> is_white_space(#[trigger] x[i]) {
            Seq::empty()
        } else {
            seq![trimmed(x)]
        }),
    decreases b.len(),
{
    if b.len() == 0 {
        assert(a + b == a);
        assert(trimmed_non_blank(b) == Seq::<Seq<char>>::empty());
        assert(trimmed_non_blank(a) + Seq::<Seq<char>>::empty() == trimmed_non_blank(a));
    } else {
        law_trimmed_non_blank(a, b.drop_last(), x);
        assert((a + b).drop_last() == a + b.drop_last());
        assert((a + b).last() == b.last());
        assert(trimmed_non_blank(a + b) == trimmed_non_blank(a) + trimmed_non_blank(b));
    }
    let one = seq![x];
    assert(one.drop_last() == Seq::<Seq<char>>::empty());
    assert(trimmed_non_blank(one.drop_last()) == Seq::<Seq<char>>::empty());
    let (i, j) = law_trimmed(x);
    if i < j {
        assert(!is_white_space(x[i]));
        assert(trimmed_non_blank(one) == seq![trimmed(x)]);
    } else {
        assert(trimmed_non_blank(one) == Seq::<Seq<char>>::empty());
    }
}

/// A list ascends where each of its elements comes before all that follow it.
pub proof fn law_ascending(list: Seq<Seq<char>>, x: Seq<char>)
    ensures
        ascending(Seq::empty()),
        ascending(list.push(x)) <==> ascending(list) && forall|i: int|
            0 <= i < list.len() ==> precedes(#[trigger] list[i], x),
{
    let more = list.push(x);
    if ascending(more) {
        assert forall|i: int, j: int| 0 <= i < j < list.len() implies precedes(
            #[trigger] list[i],
            #[trigger] list[j],
        ) by {
            assert(more[i] == list[i] && more[j] == list[j]);
        }
        assert forall|i: int| 0 <= i < list.len() implies precedes(#[trigger] list[i], x) by {
            assert(more[i] == list[i] && more[list.len() as int] == x);
        }
    }
}

/// The views of a list stand in the places of its strings.
pub proof fn law_texts(list: Seq<String>)
    ensures
        texts(list).len() == list.len(),
        forall|i: int| 0 <= i < list.len() ==> #[trigger] texts(list)[i] == list[i]@,
{
}

/// White space around a text makes no difference to what is left of it.
pub proof fn law_trimmed_ignores_padding(a: Seq<char>, x: Seq<char>, b: Seq<char>)
    requires
        forall|i: int| 0 <= i < a.len() ==> is_white_space(#[trigger] a[i]),
        forall|i: int| 0 <= i < b.len() ==> is_white_space(#[trigger] b[i]),
    ensures
        trimmed(a + x + b) == trimmed(x),
    decreases a.len() + b.len(),
{
    if a.len() > 0 {
        let rest = a.drop_first();
        assert forall|i: int| 0 <= i < rest.len() implies is_white_space(#[trigger] rest[i]) by {
            assert(rest[i] == a[i + 1]);
        }
        assert((a + x + b).first() == a[0]);
        assert((a + x + b).drop_first() == rest + x + b);
        law_trimmed_ignores_padding(rest, x, b);
    } else if b.len() > 0 {
        let rest = b.drop_last();
        assert forall|i: int| 0 <= i < rest.len() implies is_white_space(#[trigger] rest[i]) by {
            assert(rest[i] == b[i]);
        }
        assert(is_white_space(b[b.len() - 1]));
        let s = a + x + b;
        assert(s.last() == b[b.len() - 1]);
        assert(s.drop_last() == a + x + rest);
        law_trimmed_ignores_padding(a, x, rest);
        lemma_trim_trailing(s);
    } else {
        assert(a + x + b == x);
    }
}

proof fn lemma_trim_trailing(s: Seq<char>)
    requires
        s.len() > 0,
        is_white_space(s.last()),
    ensures
        trimmed(s) == trimmed(s.drop_last()),
    decreases s.len(),
{
    let init = s.drop_last();
    if init.len() > 0 && is_white_space(init.first()) {
        assert(s.drop_first().drop_last() == init.drop_first());
        lemma_trim_trailing(s.drop_first());
        assert(s.first() == init.first());
    } else if init.len() > 0 {
        assert(s.first() == init.first());
        assert(trim_front(s) == s);
    } else {
        assert(s.drop_first() == Seq::<char>::empty());
        assert(init == Seq::<char>::empty());
        assert(trim_front(s) == trim_front(s.drop_first()));
    }
}

} // verus!
