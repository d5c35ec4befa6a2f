//! Text operations on sequences of characters, with the executable functions that compute them.
use vstd::prelude::*;

verus! {

/// The views of a list of strings.
pub open spec fn views(parts: Seq<String>) -> Seq<Seq<char>> {
    Seq::new(parts.len(), |i: int| parts[i]@)
}

/// The view of an optional string.
pub open spec fn opt_view(text: Option<String>) -> Option<Seq<char>> {
    match text {
        Some(value) => Some(value@),
        None => None,
    }
}

/// `String::push`, which is documented to append the given character to the end of the string.
pub assume_specification[ std::string::String::push ](buffer: &mut std::string::String, c: char)
    ensures
        final(buffer)@ == old(buffer)@.push(c),
;

/// The characters of `text`.
pub fn chars_of(text: &str) -> (r: Vec<char>)
    ensures
        r@ == text@,
{
    let mut out: Vec<char> = Vec::new();
    for c in iter: text.chars()
        invariant
            iter.seq() == text@,
            out@ == text@.take(iter.index() as int),
    {
        out.push(c);
        assert(text@.take(iter.index() as int).push(c) =~= text@.take(iter.index() as int + 1));
    }
    assert(text@.take(text@.len() as int) =~= text@);
    out
}

/// The string made of the characters from `from` to `to`.
pub fn string_of_range(chars: &Vec<char>, from: usize, to: usize) -> (r: String)
    requires
        from <= to <= chars@.len(),
    ensures
        r@ == chars@.subrange(from as int, to as int),
{
    let mut out = String::new();
    let mut i: usize = from;
    while i < to
        invariant
            from <= i <= to <= chars@.len(),
            out@ == chars@.subrange(from as int, i as int),
        decreases to - i,
    {
        out.push(chars[i]);
        i = i + 1;
        assert(chars@.subrange(from as int, i - 1).push(chars@[i - 1]) =~= chars@.subrange(
            from as int,
            i as int,
        ));
    }
    out
}

/// The string made of `chars`.
pub fn string_of(chars: &Vec<char>) -> (r: String)
    ensures
        r@ == chars@,
{
    let r = string_of_range(chars, 0, chars.len());
    assert(chars@.subrange(0, chars@.len() as int) =~= chars@);
    r
}

/// Whether two texts hold the same characters.
pub fn same_text(a: &str, b: &str) -> (r: bool)
    ensures
        r == (a@ == b@),
{
    a.to_owned() == b.to_owned()
}

/// `a` followed by `b`.
pub fn concat2(a: &str, b: &str) -> (r: String)
    ensures
        r@ == a@ + b@,
{
    let mut out = a.to_owned();
    out.append(b);
    out
}

/// `a` followed by `b` and `c`.
pub fn concat3(a: &str, b: &str, c: &str) -> (r: String)
    ensures
        r@ == a@ + b@ + c@,
{
    let mut out = a.to_owned();
    out.append(b);
    out.append(c);
    out
}

/// A set of characters that trimming takes away.
#[derive(Clone, Copy)]
pub enum CharClass {
    /// The characters with Unicode's White_Space property.
    White,
    /// One character.
    Only(char),
}

/// Whether `c` has Unicode's White_Space property.
pub open spec fn is_white(c: char) -> bool {
    ||| '\u{9}' <= c && c <= '\u{d}'
    ||| c == ' '
    ||| c == '\u{85}'
    ||| c == '\u{a0}'
    ||| c == '\u{1680}'
    ||| '\u{2000}' <= c && c <= '\u{200a}'
    ||| c == '\u{2028}'
    ||| c == '\u{2029}'
    ||| c == '\u{202f}'
    ||| c == '\u{205f}'
    ||| c == '\u{3000}'
}

/// Whether `c` has Unicode's White_Space property.
pub fn is_whitespace(c: char) -> (r: bool)
    ensures
        r == is_white(c),
{
    (c >= '\u{9}' && c <= '\u{d}') || c == ' ' || c == '\u{85}' || c == '\u{a0}' || c == '\u{1680}'
        || (c >= '\u{2000}' && c <= '\u{200a}') || c == '\u{2028}' || c == '\u{2029}' || c
        == '\u{202f}' || c == '\u{205f}' || c == '\u{3000}'
}

impl CharClass {
    /// The members of the class.
    pub open spec fn has(self, c: char) -> bool {
        match self {
            CharClass::White => is_white(c),
            CharClass::Only(only) => c == only,
        }
    }

    /// Whether `c` belongs to the class.
    pub fn holds(self, c: char) -> (r: bool)
        ensures
            r == self.has(c),
    {
        match self {
            CharClass::White => is_whitespace(c),
            CharClass::Only(only) => c == only,
        }
    }
}

/// `s` without its leading characters of the class.
pub open spec fn trim_start_of(s: Seq<char>, class: CharClass) -> Seq<char>
    decreases s.len(),
{
    if s.len() > 0 && class.has(s[0]) {
        trim_start_of(s.skip(1), class)
    } else {
        s
    }
}

/// `s` without its trailing characters of the class.
pub open spec fn trim_end_of(s: Seq<char>, class: CharClass) -> Seq<char>
    decreases s.len(),
{
    if s.len() > 0 && class.has(s.last()) {
        trim_end_of(s.drop_last(), class)
    } else {
        s
    }
}

/// `s` without its leading and trailing characters of the class.
pub open spec fn trim_of(s: Seq<char>, class: CharClass) -> Seq<char> {
    trim_end_of(trim_start_of(s, class), class)
}

/// `s` without leading and trailing white space.
pub open spec fn trim(s: Seq<char>) -> Seq<char> {
    trim_of(s, CharClass::White)
}

/// Whether nothing but white space is in `s`.
pub open spec fn is_blank(s: Seq<char>) -> bool {
    trim(s).len() == 0
}

/// What trimming at the end leaves is a start of `s` that does not end with the class.
pub proof fn lemma_trim_end(s: Seq<char>, class: CharClass)
    ensures
        trim_end_of(s, class).len() <= s.len(),
        trim_end_of(s, class) == s.take(trim_end_of(s, class).len() as int),
        trim_end_of(s, class).len() > 0 ==> !class.has(trim_end_of(s, class).last()),
    decreases s.len(),
{
    if s.len() > 0 && class.has(s.last()) {
        lemma_trim_end(s.drop_last(), class);
        let n = trim_end_of(s, class).len() as int;
        assert(s.drop_last().take(n) =~= s.take(n));
    } else {
        assert(s.take(s.len() as int) =~= s);
    }
}

/// What trimming at the start leaves is an end of `s` that does not start with the class.
pub proof fn lemma_trim_start(s: Seq<char>, class: CharClass)
    ensures
        trim_start_of(s, class).len() <= s.len(),
        trim_start_of(s, class) == s.skip(s.len() - trim_start_of(s, class).len()),
        trim_start_of(s, class).len() > 0 ==> !class.has(trim_start_of(s, class)[0]),
    decreases s.len(),
{
    if s.len() > 0 && class.has(s[0]) {
        lemma_trim_start(s.skip(1), class);
        let n = trim_start_of(s, class).len() as int;
        assert(s.skip(1).skip(s.len() - 1 - n) =~= s.skip(s.len() - n));
    } else {
        assert(s.skip(0) =~= s);
    }
}

/// The number of leading characters of the class.
fn leading(chars: &Vec<char>, class: CharClass) -> (r: usize)
    ensures
        r <= chars@.len(),
        chars@.skip(r as int) == trim_start_of(chars@, class),
{
    let mut i: usize = 0;
    assert(chars@.skip(0) =~= chars@);
    while i < chars.len() && class.holds(chars[i])
        invariant
            i <= chars@.len(),
            trim_start_of(chars@.skip(i as int), class) == trim_start_of(chars@, class),
        decreases chars@.len() - i,
    {
        assert(chars@.skip(i as int).skip(1) =~= chars@.skip(i + 1));
        i = i + 1;
    }
    i
}

/// The position after which only characters of the class follow, not before `from`.
fn trailing(chars: &Vec<char>, from: usize, class: CharClass) -> (r: usize)
    requires
        from <= chars@.len(),
    ensures
        from <= r <= chars@.len(),
        chars@.subrange(from as int, r as int) == trim_end_of(chars@.skip(from as int), class),
{
    let mut j: usize = chars.len();
    assert(chars@.subrange(from as int, chars@.len() as int) =~= chars@.skip(from as int));
    while j > from && class.holds(chars[j - 1])
        invariant
            from <= j <= chars@.len(),
            trim_end_of(chars@.subrange(from as int, j as int), class) == trim_end_of(
                chars@.skip(from as int),
                class,
            ),
        decreases j,
    {
        assert(chars@.subrange(from as int, j as int).drop_last() =~= chars@.subrange(
            from as int,
            j - 1,
        ));
        assert(chars@.subrange(from as int, j as int).last() == chars@[j - 1]);
        j = j - 1;
    }
    proof {
        let part = chars@.subrange(from as int, j as int);
        if j > from {
            assert(part.last() == chars@[j - 1]);
        }
    }
    j
}

/// `text` without its leading and trailing characters of the class.
pub fn trim_class(text: &str, class: CharClass) -> (r: String)
    ensures
        r@ == trim_of(text@, class),
{
    let chars = chars_of(text);
    let from = leading(&chars, class);
    let to = trailing(&chars, from, class);
    string_of_range(&chars, from, to)
}

/// `text` without its leading characters of the class.
pub fn trim_start_class(text: &str, class: CharClass) -> (r: String)
    ensures
        r@ == trim_start_of(text@, class),
{
    let chars = chars_of(text);
    let from = leading(&chars, class);
    assert(chars@.subrange(from as int, chars@.len() as int) =~= chars@.skip(from as int));
    string_of_range(&chars, from, chars.len())
}

/// `text` without its trailing characters of the class.
pub fn trim_end_class(text: &str, class: CharClass) -> (r: String)
    ensures
        r@ == trim_end_of(text@, class),
{
    let chars = chars_of(text);
    let to = trailing(&chars, 0, class);
    assert(chars@.skip(0) =~= chars@);
    string_of_range(&chars, 0, to)
}

/// `text` without leading and trailing white space.
pub fn trimmed(text: &str) -> (r: String)
    ensures
        r@ == trim(text@),
{
    trim_class(text, CharClass::White)
}

/// Whether nothing but white space is in `text`.
pub fn blank(text: &str) -> (r: bool)
    ensures
        r == is_blank(text@),
{
    trimmed(text).as_str().is_empty()
}

/// Whether `pat` stands in `s` at position `i`.
pub open spec fn occurs_at(s: Seq<char>, pat: Seq<char>, i: int) -> bool {
    &&& 0 <= i
    &&& i + pat.len() <= s.len()
    &&& s.subrange(i, i + pat.len()) == pat
}

/// Whether `pat` stands anywhere in `s`.
pub open spec fn contains(s: Seq<char>, pat: Seq<char>) -> bool {
    exists|i: int| occurs_at(s, pat, i)
}

/// Whether `s` begins with `pat`.
pub open spec fn starts_with(s: Seq<char>, pat: Seq<char>) -> bool {
    occurs_at(s, pat, 0)
}

/// Whether `s` ends with `pat`.
pub open spec fn ends_with(s: Seq<char>, pat: Seq<char>) -> bool {
    occurs_at(s, pat, s.len() - pat.len())
}

/// The first position of `pat` in `s`, from `from` on.
pub open spec fn find_from(s: Seq<char>, pat: Seq<char>, from: int) -> Option<int>
    decreases s.len() - from + 1,
{
    if from < 0 || from + pat.len() > s.len() {
        None
    } else if occurs_at(s, pat, from) {
        Some(from)
    } else {
        find_from(s, pat, from + 1)
    }
}

/// What is found is an occurrence, and none precedes it; where nothing is found there is none.
pub proof fn lemma_find(s: Seq<char>, pat: Seq<char>, from: int)
    requires
        0 <= from,
    ensures
        match find_from(s, pat, from) {
            Some(i) => from <= i && occurs_at(s, pat, i) && forall|j: int|
                from <= j < i ==> !occurs_at(s, pat, j),
            None => forall|j: int| from <= j ==> !occurs_at(s, pat, j),
        },
    decreases s.len() - from + 1,
{
    if from + pat.len() > s.len() {
    } else if occurs_at(s, pat, from) {
    } else {
        lemma_find(s, pat, from + 1);
    }
}

/// Whether `pat` stands in `chars` at position `i`.
pub fn found_at(chars: &Vec<char>, pat: &Vec<char>, i: usize) -> (r: bool)
    ensures
        r == occurs_at(chars@, pat@, i as int),
{
    if pat.len() > chars.len() || i > chars.len() - pat.len() {
        return false;
    }
    let mut k: usize = 0;
    while k < pat.len()
        invariant
            k <= pat@.len(),
            i + pat@.len() <= chars.len(),
            forall|m: int| 0 <= m < k ==> chars@[i + m] == pat@[m],
        decreases pat@.len() - k,
    {
        if chars[i + k] != pat[k] {
            assert(chars@.subrange(i as int, i + pat@.len())[k as int] == chars@[i + k]);
            return false;
        }
        k = k + 1;
    }
    assert(chars@.subrange(i as int, i + pat@.len()) =~= pat@);
    true
}

/// An optional position as a mathematical one.
pub open spec fn opt_pos(r: Option<usize>) -> Option<int> {
    match r {
        Some(i) => Some(i as int),
        None => None,
    }
}

/// The first position of `pat` in `chars`, from `from` on.
pub fn position(chars: &Vec<char>, pat: &Vec<char>, from: usize) -> (r: Option<usize>)
    ensures
        opt_pos(r) == find_from(chars@, pat@, from as int),
        r matches Some(i) ==> i + pat.len() <= chars.len() && from <= i,
{
    if pat.len() > chars.len() {
        return None;
    }
    let last: usize = chars.len() - pat.len();
    let mut i: usize = from;
    while i <= last
        invariant
            from <= i,
            i <= last + 1 || i == from,
            last + pat@.len() == chars@.len(),
            find_from(chars@, pat@, i as int) == find_from(chars@, pat@, from as int),
        decreases last + 1 - i,
    {
        if found_at(chars, pat, i) {
            return Some(i);
        }
        if i == last {
            assert(find_from(chars@, pat@, i + 1) is None);
            return None;
        }
        i = i + 1;
    }
    None
}

/// Whether `pat` stands anywhere in `text`.
pub fn has_text(text: &str, pat: &str) -> (r: bool)
    ensures
        r == contains(text@, pat@),
{
    let chars = chars_of(text);
    let pattern = chars_of(pat);
    let r = position(&chars, &pattern, 0);
    proof {
        lemma_find(text@, pat@, 0);
        if r is Some {
            assert(occurs_at(text@, pat@, r->0 as int));
        }
    }
    r.is_some()
}

/// Whether `text` begins with `pat`.
pub fn begins_with(text: &str, pat: &str) -> (r: bool)
    ensures
        r == starts_with(text@, pat@),
{
    found_at(&chars_of(text), &chars_of(pat), 0)
}

/// Whether `text` ends with `pat`.
pub fn finishes_with(text: &str, pat: &str) -> (r: bool)
    ensures
        r == ends_with(text@, pat@),
{
    let chars = chars_of(text);
    let pattern = chars_of(pat);
    if pattern.len() > chars.len() {
        return false;
    }
    found_at(&chars, &pattern, chars.len() - pattern.len())
}

/// The ASCII lower case of `c`.
pub open spec fn lower_char(c: char) -> char {
    if 'A' <= c && c <= 'Z' {
        (c as int + 32) as char
    } else {
        c
    }
}

/// `s` with each ASCII capital letter in lower case.
pub open spec fn lower(s: Seq<char>) -> Seq<char> {
    Seq::new(s.len(), |i: int| lower_char(s[i]))
}

/// The ASCII lower case of `c`.
pub fn to_lower(c: char) -> (r: char)
    ensures
        r == lower_char(c),
{
    if c >= 'A' && c <= 'Z' {
        ((c as u8) + 32u8) as char
    } else {
        c
    }
}

/// `chars` with each ASCII capital letter in lower case.
pub fn lowered_chars(chars: &Vec<char>) -> (r: Vec<char>)
    ensures
        r@ == lower(chars@),
{
    let mut out: Vec<char> = Vec::new();
    let mut i: usize = 0;
    while i < chars.len()
        invariant
            i <= chars@.len(),
            out@ == lower(chars@).take(i as int),
        decreases chars@.len() - i,
    {
        out.push(to_lower(chars[i]));
        i = i + 1;
        assert(lower(chars@).take(i - 1).push(lower(chars@)[i - 1]) =~= lower(chars@).take(i as int));
    }
    assert(lower(chars@).take(i as int) =~= lower(chars@));
    out
}

/// `text` with each ASCII capital letter in lower case.
pub fn lowered(text: &str) -> (r: String)
    ensures
        r@ == lower(text@),
{
    string_of(&lowered_chars(&chars_of(text)))
}

/// The parts one after another, with `sep` between neighbours.
pub open spec fn join(parts: Seq<Seq<char>>, sep: Seq<char>) -> Seq<char>
    decreases parts.len(),
{
    if parts.len() == 0 {
        Seq::empty()
    } else if parts.len() == 1 {
        parts[0]
    } else {
        join(parts.drop_last(), sep) + sep + parts.last()
    }
}

/// The parts one after another, with `sep` between neighbours.
pub fn joined(parts: &Vec<String>, sep: &str) -> (r: String)
    ensures
        r@ == join(views(parts@), sep@),
{
    let ghost all = views(parts@);
    let mut out = String::new();
    let mut i: usize = 0;
    while i < parts.len()
        invariant
            i <= parts@.len(),
            all == views(parts@),
            out@ == join(all.take(i as int), sep@),
        decreases parts@.len() - i,
    {
        if i > 0 {
            out.append(sep);
        }
        out.append(parts[i].as_str());
        i = i + 1;
        proof {
            let now = all.take(i as int);
            assert(now.drop_last() =~= all.take(i - 1));
            assert(now.last() == parts@[i - 1]@);
            if i == 1 {
                assert(out@ =~= now[0]);
            }
        }
    }
    assert(all.take(i as int) =~= all);
    out
}

/// The first `n` characters of `s`, all of it where there are no more than `n`.
pub open spec fn clip(s: Seq<char>, n: int) -> Seq<char> {
    if s.len() <= n {
        s
    } else {
        s.take(n)
    }
}

/// The first `n` characters of `text`.
pub fn clipped(text: &str, n: usize) -> (r: String)
    ensures
        r@ == clip(text@, n as int),
{
    let chars = chars_of(text);
    if chars.len() <= n {
        return text.to_owned();
    }
    assert(chars@.subrange(0, n as int) =~= chars@.take(n as int));
    string_of_range(&chars, 0, n)
}

/// `s` where it has at most `n` characters, else its first `n` characters and the mark.
pub open spec fn clip_marked(s: Seq<char>, n: int, mark: Seq<char>) -> Seq<char> {
    if s.len() <= n {
        s
    } else {
        s.take(n) + mark
    }
}

/// `text` where it has at most `n` characters, else its first `n` characters and the mark.
pub fn clipped_marked(text: &str, n: usize, mark: &str) -> (r: String)
    ensures
        r@ == clip_marked(text@, n as int, mark@),
{
    if text.unicode_len() <= n {
        return text.to_owned();
    }
    let mut out = clipped(text, n);
    out.append(mark);
    out
}

/// The decimal digit of `d`.
pub open spec fn digit(d: nat) -> char {
    (48 + d) as char
}

/// The decimal notation of `n`.
pub open spec fn decimal(n: nat) -> Seq<char>
    decreases n,
{
    if n < 10 {
        seq![digit(n)]
    } else {
        decimal(n / 10).push(digit(n % 10))
    }
}

/// A decimal notation is made of digits.
pub proof fn lemma_decimal_digits(n: nat)
    ensures
        decimal(n).len() > 0,
        forall|i: int| 0 <= i < decimal(n).len() ==> '0' <= #[trigger] decimal(n)[i] <= '9',
    decreases n,
{
    if n >= 10 {
        lemma_decimal_digits(n / 10);
    }
}

/// Two numbers have one decimal notation only where they are the same.
pub proof fn lemma_decimal_injective(a: nat, b: nat)
    requires
        decimal(a) == decimal(b),
    ensures
        a == b,
    decreases a,
{
    assert(decimal(a).last() == digit(a % 10));
    assert(decimal(b).last() == digit(b % 10));
    assert(digit(a % 10) as int == 48 + a % 10);
    assert(digit(b % 10) as int == 48 + b % 10);
    if a >= 10 {
        lemma_decimal_digits(a / 10);
        assert(decimal(a).len() >= 2);
        assert(b >= 10);
        assert(decimal(a).drop_last() =~= decimal(a / 10));
        assert(decimal(b).drop_last() =~= decimal(b / 10));
        lemma_decimal_injective(a / 10, b / 10);
    } else if b >= 10 {
        lemma_decimal_digits(b / 10);
        assert(decimal(b).len() >= 2);
    }
}

/// The decimal notation of `n`, with a sign where it is negative.
pub open spec fn decimal_int(n: int) -> Seq<char> {
    if n < 0 {
        seq!['-'] + decimal((-n) as nat)
    } else {
        decimal(n as nat)
    }
}

/// The decimal notation of `n`.
pub fn decimal_of(n: u64) -> (r: String)
    ensures
        r@ == decimal(n as nat),
    decreases n,
{
    let d: char = ((n % 10) as u8 + 48u8) as char;
    if n < 10 {
        let mut out = String::new();
        out.push(d);
        assert(out@ =~= seq![d]);
        out
    } else {
        let mut out = decimal_of(n / 10);
        out.push(d);
        out
    }
}

/// The decimal notation of `n`, with a sign where it is negative.
pub fn decimal_of_i64(n: i64) -> (r: String)
    ensures
        r@ == decimal_int(n as int),
{
    if n < 0 {
        let magnitude: u64 = if n == i64::MIN {
            9223372036854775808u64
        } else {
            (-n) as u64
        };
        let digits = decimal_of(magnitude);
        let mut out = String::new();
        out.push('-');
        out.append(digits.as_str());
        assert(out@ =~= seq!['-'] + decimal(magnitude as nat));
        out
    } else {
        decimal_of(n as u64)
    }
}

/// The first position in `s`, from `from` on, of a character of the class.
pub open spec fn class_from(s: Seq<char>, class: CharClass, from: int) -> int
    decreases s.len() - from,
{
    if from >= s.len() || class.has(s[from]) {
        from
    } else {
        class_from(s, class, from + 1)
    }
}

/// The position is not before `from`, not after the end, and nothing between is of the class.
pub proof fn lemma_class_from(s: Seq<char>, class: CharClass, from: int)
    requires
        0 <= from <= s.len(),
    ensures
        from <= class_from(s, class, from) <= s.len(),
        forall|j: int| from <= j < class_from(s, class, from) ==> !class.has(s[j]),
        class_from(s, class, from) < s.len() ==> class.has(s[class_from(s, class, from)]),
    decreases s.len() - from,
{
    if from >= s.len() || class.has(s[from]) {
    } else {
        lemma_class_from(s, class, from + 1);
    }
}

/// The first position in `chars`, from `from` on, of a character of the class.
pub fn class_position(chars: &Vec<char>, class: CharClass, from: usize) -> (r: usize)
    requires
        from <= chars@.len(),
    ensures
        r == class_from(chars@, class, from as int),
        from <= r <= chars@.len(),
{
    let mut i: usize = from;
    while i < chars.len() && !class.holds(chars[i])
        invariant
            from <= i <= chars@.len(),
            class_from(chars@, class, i as int) == class_from(chars@, class, from as int),
        decreases chars@.len() - i,
    {
        i = i + 1;
    }
    i
}

/// The words of `s`: its maximal runs without white space.
pub open spec fn words(s: Seq<char>) -> Seq<Seq<char>>
    decreases s.len(),
{
    if s.len() == 0 {
        Seq::empty()
    } else if is_white(s[0]) {
        words(s.skip(1))
    } else {
        let n = class_from(s, CharClass::White, 0);
        if 0 < n <= s.len() {
            seq![s.take(n)] + words(s.skip(n))
        } else {
            Seq::empty()
        }
    }
}

/// The words of `text`.
pub fn words_of(text: &str) -> (r: Vec<String>)
    ensures
        views(r@) == words(text@),
{
    let chars = chars_of(text);
    let mut out: Vec<String> = Vec::new();
    let mut i: usize = 0;
    assert(chars@.skip(0) =~= chars@);
    assert(views(out@) + words(chars@) =~= words(chars@));
    while i < chars.len()
        invariant
            i <= chars@.len(),
            views(out@) + words(chars@.skip(i as int)) == words(chars@),
        decreases chars@.len() - i,
    {
        let ghost rest = chars@.skip(i as int);
        if is_whitespace(chars[i]) {
            assert(rest.skip(1) =~= chars@.skip(i + 1));
            i = i + 1;
        } else {
            let stop = class_position(&chars, CharClass::White, i);
            let word = string_of_range(&chars, i, stop);
            let ghost before = views(out@);
            proof {
                lemma_class_from_skip(chars@, CharClass::White, i as int, 0);
                lemma_class_from(rest, CharClass::White, 0);
                assert(class_from(rest, CharClass::White, 0) == stop - i);
                assert(rest.take(stop - i) =~= chars@.subrange(i as int, stop as int));
                assert(rest.skip(stop - i) =~= chars@.skip(stop as int));
                if stop == i {
                    assert(is_white(rest[0]));
                }
            }
            out.push(word);
            assert(views(out@) =~= before.push(word@));
            assert(before.push(word@) + words(chars@.skip(stop as int)) =~= before + (seq![word@]
                + words(chars@.skip(stop as int))));
            i = stop;
        }
    }
    assert(views(out@) + words(chars@.skip(i as int)) =~= views(out@));
    out
}

/// Searching a suffix is searching the whole from the suffix's start.
proof fn lemma_class_from_skip(s: Seq<char>, class: CharClass, base: int, from: int)
    requires
        0 <= base <= s.len(),
        0 <= from <= s.len() - base,
    ensures
        class_from(s, class, base + from) == base + class_from(s.skip(base), class, from),
    decreases s.len() - base - from,
{
    if from >= s.len() - base || class.has(s.skip(base)[from]) {
    } else {
        lemma_class_from_skip(s, class, base, from + 1);
    }
}

/// `s` without a final carriage return.
pub open spec fn strip_cr(s: Seq<char>) -> Seq<char> {
    if s.len() > 0 && s.last() == '\r' {
        s.drop_last()
    } else {
        s
    }
}

/// The lines of `s`.  A line feed, or a carriage return and a line feed, ends a line; the last
/// line needs no ending.
pub open spec fn lines(s: Seq<char>) -> Seq<Seq<char>>
    decreases s.len(),
{
    if s.len() == 0 {
        Seq::empty()
    } else {
        let n = class_from(s, CharClass::Only('\n'), 0);
        if 0 <= n < s.len() {
            seq![strip_cr(s.take(n))] + lines(s.skip(n + 1))
        } else {
            seq![s]
        }
    }
}

/// `chars` from `from` to `to`, without a final carriage return.
pub fn without_cr(chars: &Vec<char>, from: usize, to: usize) -> (r: String)
    requires
        from <= to <= chars@.len(),
    ensures
        r@ == strip_cr(chars@.subrange(from as int, to as int)),
{
    if to > from && chars[to - 1] == '\r' {
        assert(chars@.subrange(from as int, to as int).drop_last() =~= chars@.subrange(
            from as int,
            to - 1,
        ));
        string_of_range(chars, from, to - 1)
    } else {
        string_of_range(chars, from, to)
    }
}

/// The lines of `text`.
pub fn lines_of(text: &str) -> (r: Vec<String>)
    ensures
        views(r@) == lines(text@),
{
    let chars = chars_of(text);
    let mut out: Vec<String> = Vec::new();
    let mut i: usize = 0;
    assert(chars@.skip(0) =~= chars@);
    assert(views(out@) + lines(chars@) =~= lines(chars@));
    while i < chars.len()
        invariant
            i <= chars@.len(),
            views(out@) + lines(chars@.skip(i as int)) == lines(chars@),
        decreases chars@.len() - i,
    {
        let ghost rest = chars@.skip(i as int);
        let ghost before = views(out@);
        let stop = class_position(&chars, CharClass::Only('\n'), i);
        proof {
            lemma_class_from_skip(chars@, CharClass::Only('\n'), i as int, 0);
            assert(rest.take(stop - i) =~= chars@.subrange(i as int, stop as int));
        }
        if stop < chars.len() {
            let line = without_cr(&chars, i, stop);
            out.push(line);
            proof {
                assert(rest.skip(stop - i + 1) =~= chars@.skip(stop + 1));
                assert(views(out@) =~= before.push(line@));
                assert(before.push(line@) + lines(chars@.skip(stop + 1)) =~= before + (seq![line@]
                    + lines(chars@.skip(stop + 1))));
            }
            i = stop + 1;
        } else {
            let line = string_of_range(&chars, i, stop);
            out.push(line);
            proof {
                assert(rest =~= chars@.subrange(i as int, stop as int));
                assert(lines(rest) =~= seq![line@]);
                assert(views(out@) =~= before.push(line@));
                assert(lines(chars@.skip(stop as int)) =~= Seq::<Seq<char>>::empty());
                assert(views(out@) + Seq::<Seq<char>>::empty() =~= before + seq![line@]);
            }
            i = stop;
        }
    }
    assert(views(out@) + lines(chars@.skip(i as int)) =~= views(out@));
    out
}

/// `s` with each occurrence of `pat`, from the left and without overlap, replaced by `with`.
pub open spec fn replace(s: Seq<char>, pat: Seq<char>, with: Seq<char>) -> Seq<char>
    decreases s.len(),
{
    match find_from(s, pat, 0) {
        None => s,
        Some(i) => if pat.len() > 0 && 0 <= i && i + pat.len() <= s.len() {
            s.take(i) + with + replace(s.skip(i + pat.len()), pat, with)
        } else {
            s
        },
    }
}

/// Searching a suffix is searching the whole from the suffix's start.
pub proof fn lemma_find_skip(s: Seq<char>, pat: Seq<char>, base: int, from: int)
    requires
        0 <= base <= s.len(),
        0 <= from,
    ensures
        find_from(s, pat, base + from) == match find_from(s.skip(base), pat, from) {
            Some(i) => Some(base + i),
            None => None,
        },
    decreases s.len() - base - from + 1,
{
    if base + from + pat.len() > s.len() {
    } else {
        assert(s.skip(base).subrange(from, from + pat.len()) =~= s.subrange(
            base + from,
            base + from + pat.len(),
        ));
        if occurs_at(s, pat, base + from) {
        } else {
            lemma_find_skip(s, pat, base, from + 1);
        }
    }
}

/// `text` with each occurrence of `pat`, from the left and without overlap, replaced by `with`.
pub fn replaced(text: &str, pat: &str, with: &str) -> (r: String)
    requires
        pat@.len() > 0,
    ensures
        r@ == replace(text@, pat@, with@),
{
    let chars = chars_of(text);
    let pattern = chars_of(pat);
    let mut out = String::new();
    let mut i: usize = 0;
    assert(chars@.skip(0) =~= chars@);
    assert(out@ + replace(chars@, pat@, with@) =~= replace(chars@, pat@, with@));
    loop
        invariant_except_break
            i <= chars@.len(),
            chars@ == text@,
            pattern@ == pat@,
            pat@.len() > 0,
            out@ + replace(chars@.skip(i as int), pat@, with@) == replace(chars@, pat@, with@),
        ensures
            out@ == replace(text@, pat@, with@),
        decreases chars@.len() - i,
    {
        let ghost rest = chars@.skip(i as int);
        proof {
            lemma_find_skip(chars@, pat@, i as int, 0);
        }
        match position(&chars, &pattern, i) {
            None => {
                let tail = string_of_range(&chars, i, chars.len());
                assert(rest =~= tail@);
                out.append(tail.as_str());
                break;
            },
            Some(at) => {
                let head = string_of_range(&chars, i, at);
                let ghost before = out@;
                out.append(head.as_str());
                out.append(with);
                let next: usize = at + pattern.len();
                proof {
                    assert(rest.take(at - i) =~= head@);
                    assert(rest.skip(at - i + pat@.len()) =~= chars@.skip(next as int));
                    assert(before + (head@ + with@ + replace(chars@.skip(next as int), pat@, with@))
                        =~= before + head@ + with@ + replace(
                        chars@.skip(next as int),
                        pat@,
                        with@,
                    ));
                }
                i = next;
            },
        }
    }
    out
}

/// How often `pat` stands in `s`, counted from the left and without overlap.
pub open spec fn match_count(s: Seq<char>, pat: Seq<char>) -> nat
    decreases s.len(),
{
    match find_from(s, pat, 0) {
        None => 0,
        Some(i) => if pat.len() > 0 && 0 <= i && i + pat.len() <= s.len() {
            1 + match_count(s.skip(i + pat.len()), pat)
        } else {
            0
        },
    }
}

/// How often `pat` stands in `text`, counted from the left and without overlap.
pub fn matches_of(text: &str, pat: &str) -> (r: usize)
    requires
        pat@.len() > 0,
    ensures
        r == match_count(text@, pat@),
{
    let chars = chars_of(text);
    let pattern = chars_of(pat);
    let mut count: usize = 0;
    let mut i: usize = 0;
    assert(chars@.skip(0) =~= chars@);
    loop
        invariant
            count <= i <= chars.len(),
            chars@ == text@,
            pattern@ == pat@,
            pat@.len() > 0,
            count + match_count(chars@.skip(i as int), pat@) == match_count(chars@, pat@),
        ensures
            count == match_count(text@, pat@),
        decreases chars@.len() - i,
    {
        proof {
            lemma_find_skip(chars@, pat@, i as int, 0);
        }
        match position(&chars, &pattern, i) {
            None => {
                break;
            },
            Some(at) => {
                let next: usize = at + pattern.len();
                assert(chars@.skip(i as int).skip(at - i + pat@.len()) =~= chars@.skip(
                    next as int,
                ));
                count = count + 1;
                i = next;
            },
        }
    }
    count
}

/// Whether `c` is an ASCII digit.
pub open spec fn is_digit(c: char) -> bool {
    '0' <= c && c <= '9'
}

/// Whether `c` is an ASCII letter or digit.
pub open spec fn is_alnum(c: char) -> bool {
    is_digit(c) || ('a' <= c && c <= 'z') || ('A' <= c && c <= 'Z')
}

/// Whether `c` is an ASCII letter or digit.
pub fn alphanumeric(c: char) -> (r: bool)
    ensures
        r == is_alnum(c),
{
    (c >= '0' && c <= '9') || (c >= 'a' && c <= 'z') || (c >= 'A' && c <= 'Z')
}

/// The number that a text of digits denotes.
pub open spec fn digits_value(s: Seq<char>) -> nat
    decreases s.len(),
{
    if s.len() == 0 {
        0
    } else {
        (digits_value(s.drop_last()) * 10 + (s.last() as int - '0' as int)) as nat
    }
}

/// Whether `s` is a non-empty text of digits.
pub open spec fn is_number(s: Seq<char>) -> bool {
    s.len() > 0 && forall|i: int| 0 <= i < s.len() ==> is_digit(#[trigger] s[i])
}

/// The number that `s` denotes after an optional plus sign, where that is at most `max`.
pub open spec fn parse_number(s: Seq<char>, max: int) -> Option<int> {
    let body = if s.len() > 0 && s[0] == '+' {
        s.skip(1)
    } else {
        s
    };
    if is_number(body) && digits_value(body) <= max {
        Some(digits_value(body) as int)
    } else {
        None
    }
}

/// A longer text of digits denotes no smaller number.
proof fn lemma_digits_grow(s: Seq<char>, i: int)
    requires
        0 <= i <= s.len(),
        is_number(s),
    ensures
        digits_value(s.take(i)) <= digits_value(s),
    decreases s.len() - i,
{
    if i == s.len() {
        assert(s.take(i) =~= s);
    } else {
        lemma_digits_grow(s, i + 1);
        assert(s.take(i + 1).drop_last() =~= s.take(i));
        assert(is_digit(s[i]));
    }
}

/// The decimal notation of a number denotes it.
pub proof fn lemma_decimal_read_back(n: nat)
    ensures
        is_number(decimal(n)),
        digits_value(decimal(n)) == n,
        parse_number(decimal(n), n as int) == Some(n as int),
    decreases n,
{
    lemma_decimal_digits(n);
    assert(decimal(n).last() == digit(n % 10));
    assert(digit(n % 10) as int == 48 + n % 10);
    if n >= 10 {
        lemma_decimal_read_back(n / 10);
        assert(decimal(n).drop_last() =~= decimal(n / 10));
    } else {
        assert(decimal(n).drop_last() =~= Seq::<char>::empty());
        assert(digits_value(Seq::<char>::empty()) == 0);
    }
    assert(decimal(n)[0] != '+');
}

/// The number that `text` denotes after an optional plus sign, where that is at most `max`.
pub fn number_in(text: &str, max: u64) -> (r: Option<u64>)
    ensures
        parse_number(text@, max as int) == match r {
            Some(n) => Some(n as int),
            None => None,
        },
{
    let chars = chars_of(text);
    let mut i: usize = 0;
    if chars.len() > 0 && chars[0] == '+' {
        i = 1;
    }
    let ghost body = chars@.skip(i as int);
    proof {
        assert(chars@.skip(0) =~= chars@);
        assert(body.take(0) =~= Seq::<char>::empty());
    }
    if i == chars.len() {
        return None;
    }
    let start: usize = i;
    let mut value: u64 = 0;
    while i < chars.len()
        invariant
            start <= i <= chars@.len(),
            body == chars@.skip(start as int),
            parse_number(chars@, max as int) == if is_number(body) && digits_value(body) <= max {
                Some(digits_value(body) as int)
            } else {
                None
            },
            chars@ == text@,
            body.len() > 0,
            value <= max,
            value == digits_value(body.take(i - start)),
            forall|j: int| 0 <= j < i - start ==> is_digit(#[trigger] body[j]),
        decreases chars@.len() - i,
    {
        let c = chars[i];
        assert(body[i - start] == c);
        if c < '0' || c > '9' {
            return None;
        }
        let d: u64 = (c as u32 - 48) as u64;
        proof {
            assert(body.take(i - start + 1).drop_last() =~= body.take(i - start));
            assert(digits_value(body.take(i - start + 1)) == value * 10 + d);
            if is_number(body) {
                lemma_digits_grow(body, i - start + 1);
            }
        }
        match value.checked_mul(10) {
            None => {
                return None;
            },
            Some(tens) => match tens.checked_add(d) {
                None => {
                    return None;
                },
                Some(next) => {
                    if next > max {
                        return None;
                    }
                    value = next;
                },
            },
        }
        i = i + 1;
    }
    assert(body.take(i - start) =~= body);
    Some(value)
}

/// A copy of texts.
pub fn copy_texts(values: &Vec<String>) -> (r: Vec<String>)
    ensures
        views(r@) == views(values@),
{
    let ghost all = views(values@);
    let mut out: Vec<String> = Vec::new();
    let mut i: usize = 0;
    while i < values.len()
        invariant
            i <= values@.len(),
            all == views(values@),
            views(out@) =~= all.take(i as int),
        decreases values@.len() - i,
    {
        let ghost before = views(out@);
        out.push(values[i].clone());
        i = i + 1;
        assert(views(out@) =~= before.push(all[i - 1]));
    }
    assert(all.take(i as int) =~= all);
    out
}

/// What trimming takes away is of the class, at both ends and nowhere else: the text is what was
/// taken off its start, what is left, and what was taken off its end.
pub proof fn law_trimming_takes_the_ends(s: Seq<char>, class: CharClass) -> (r: (int, int))
    ensures
        0 <= r.0 <= r.1 <= s.len(),
        trim_of(s, class) == s.subrange(r.0, r.1),
        forall|i: int| 0 <= i < r.0 || r.1 <= i < s.len() ==> class.has(#[trigger] s[i]),
        r.0 < r.1 ==> !class.has(s[r.0]) && !class.has(s[r.1 - 1]),
{
    let from = lemma_start_taken(s, class);
    let rest = trim_start_of(s, class);
    let to = lemma_end_taken(rest, class);
    lemma_trim_end(rest, class);
    assert(rest.take(to) =~= s.subrange(from, from + to));
    assert forall|i: int| 0 <= i < from || from + to <= i < s.len() implies class.has(
        #[trigger] s[i],
    ) by {
        if i >= from + to {
            assert(rest[i - from] == s[i]);
        }
    }
    if to > 0 {
        assert(rest[0] == s[from]);
        assert(trim_of(s, class).last() == s[from + to - 1]);
    }
    (from, from + to)
}

/// What is taken off the start is of the class.
proof fn lemma_start_taken(s: Seq<char>, class: CharClass) -> (from: int)
    ensures
        0 <= from <= s.len(),
        trim_start_of(s, class) == s.skip(from),
        forall|i: int| 0 <= i < from ==> class.has(#[trigger] s[i]),
        from < s.len() ==> !class.has(s[from]),
    decreases s.len(),
{
    if s.len() > 0 && class.has(s[0]) {
        let from = lemma_start_taken(s.skip(1), class);
        assert(s.skip(1).skip(from) =~= s.skip(from + 1));
        assert forall|i: int| 0 <= i < from + 1 implies class.has(#[trigger] s[i]) by {
            if i > 0 {
                assert(s.skip(1)[i - 1] == s[i]);
            }
        }
        from + 1
    } else {
        assert(s.skip(0) =~= s);
        0
    }
}

/// What is taken off the end is of the class.
proof fn lemma_end_taken(s: Seq<char>, class: CharClass) -> (to: int)
    ensures
        0 <= to <= s.len(),
        trim_end_of(s, class) == s.take(to),
        forall|i: int| to <= i < s.len() ==> class.has(#[trigger] s[i]),
    decreases s.len(),
{
    if s.len() > 0 && class.has(s.last()) {
        let to = lemma_end_taken(s.drop_last(), class);
        assert(s.drop_last().take(to) =~= s.take(to));
        assert forall|i: int| to <= i < s.len() implies class.has(#[trigger] s[i]) by {
            if i < s.len() - 1 {
                assert(s.drop_last()[i] == s[i]);
            }
        }
        to
    } else {
        assert(s.take(s.len() as int) =~= s);
        s.len() as int
    }
}

/// A text is blank exactly where it holds nothing but white space.
pub proof fn law_blank_texts_say_nothing(s: Seq<char>)
    ensures
        is_blank(s) <==> forall|i: int| 0 <= i < s.len() ==> is_white(#[trigger] s[i]),
{
    let (from, to) = law_trimming_takes_the_ends(s, CharClass::White);
    if is_blank(s) {
        assert forall|i: int| 0 <= i < s.len() implies is_white(#[trigger] s[i]) by {
            assert(CharClass::White.has(s[i]));
        }
    }
    if forall|i: int| 0 <= i < s.len() ==> is_white(#[trigger] s[i]) {
        if from < to {
            assert(is_white(s[from]));
        }
    }
}

/// Where the first occurrence of a text is, it is replaced, and what follows is replaced likewise;
/// a text that does not occur changes nothing.
pub proof fn law_replacing_goes_from_the_left(
    a: Seq<char>,
    pat: Seq<char>,
    b: Seq<char>,
    with: Seq<char>,
)
    requires
        pat.len() > 0,
    ensures
        !contains(a, pat) ==> replace(a, pat, with) == a && match_count(a, pat) == 0,
        (forall|j: int| 0 <= j < a.len() ==> !occurs_at(a + pat + b, pat, j)) ==> {
            &&& replace(a + pat + b, pat, with) == a + with + replace(b, pat, with)
            &&& match_count(a + pat + b, pat) == 1 + match_count(b, pat)
        },
{
    lemma_find(a, pat, 0);
    if !contains(a, pat) {
        if find_from(a, pat, 0) is Some {
            assert(occurs_at(a, pat, find_from(a, pat, 0)->Some_0));
        }
    }
    let s = a + pat + b;
    let n = a.len() as int;
    assert(occurs_at(s, pat, n)) by {
        assert(s.subrange(n, n + pat.len()) =~= pat);
    }
    lemma_find(s, pat, 0);
    if forall|j: int| 0 <= j < a.len() ==> !occurs_at(s, pat, j) {
        assert(find_from(s, pat, 0) == Some(n));
        assert(s.take(n) =~= a);
        assert(s.skip(n + pat.len()) =~= b);
    }
}

/// A text of one line is that line, and lines are parted by the ends of lines, one after another.
pub proof fn law_lines_are_parted_by_their_ends(first: Seq<char>, rest: Seq<char>)
    requires
        forall|i: int| 0 <= i < first.len() ==> #[trigger] first[i] != '\n',
        first.len() == 0 || first.last() != '\r',
    ensures
        first.len() > 0 ==> lines(first) == seq![first],
        lines(first + seq!['\n'] + rest) == seq![first] + lines(rest),
        lines(first + seq!['\r', '\n'] + rest) == seq![first] + lines(rest),
        lines(Seq::empty()).len() == 0,
{
    let n = first.len() as int;
    let end = CharClass::Only('\n');
    lemma_class_from(first, end, 0);
    if class_from(first, end, 0) < n {
        assert(first[class_from(first, end, 0)] == '\n');
    }
    let whole = first + seq!['\n'] + rest;
    lemma_class_from(whole, end, 0);
    assert(whole[n] == '\n');
    let at = class_from(whole, end, 0);
    assert(at == n) by {
        if at < n {
            assert(whole[at] == first[at]);
        } else if at > n {
            assert(!end.has(whole[n]));
        }
    }
    assert(whole.take(n) =~= first);
    assert(whole.skip(n + 1) =~= rest);
    let wide = first + seq!['\r', '\n'] + rest;
    lemma_class_from(wide, end, 0);
    assert(wide[n + 1] == '\n' && wide[n] == '\r');
    let at = class_from(wide, end, 0);
    assert(at == n + 1) by {
        if at < n {
            assert(wide[at] == first[at]);
        } else if at > n + 1 {
            assert(!end.has(wide[n + 1]));
        }
    }
    assert(wide.take(n + 1) =~= first.push('\r'));
    assert(strip_cr(first.push('\r')) =~= first);
    assert(wide.skip(n + 2) =~= rest);
}

/// The words of a text are parted by white space.
pub proof fn law_words_are_parted_by_white_space(word: Seq<char>, rest: Seq<char>, space: char)
    requires
        word.len() > 0,
        forall|i: int| 0 <= i < word.len() ==> !is_white(#[trigger] word[i]),
        is_white(space),
    ensures
        words(word) == seq![word],
        words(seq![space] + rest) == words(rest),
        words(word + seq![space] + rest) == seq![word] + words(rest),
{
    let n = word.len() as int;
    let white = CharClass::White;
    lemma_class_from(word, white, 0);
    if class_from(word, white, 0) < n {
        assert(is_white(word[class_from(word, white, 0)]));
    }
    assert(word.take(n) =~= word);
    assert(word.skip(n) =~= Seq::<char>::empty());
    assert(words(Seq::<char>::empty()) =~= Seq::<Seq<char>>::empty());
    assert(seq![word] + Seq::<Seq<char>>::empty() =~= seq![word]);
    let spaced = seq![space] + rest;
    assert(spaced.skip(1) =~= rest);
    let whole = word + seq![space] + rest;
    lemma_class_from(whole, white, 0);
    assert(whole[n] == space);
    let at = class_from(whole, white, 0);
    assert(at == n) by {
        if at < n {
            assert(whole[at] == word[at]);
        } else if at > n {
            assert(!white.has(whole[n]));
        }
    }
    assert(whole[0] == word[0]);
    assert(whole.take(n) =~= word);
    assert(whole.skip(n) =~= spaced);
}

/// Texts are joined in their order, with the separator between neighbours and nowhere else.
pub proof fn law_joining_keeps_the_order(first: Seq<Seq<char>>, second: Seq<Seq<char>>, sep: Seq<char>)
    ensures
        first.len() > 0 && second.len() > 0 ==> join(first + second, sep) == join(first, sep) + sep
            + join(second, sep),
        first.len() == 1 ==> join(first, sep) == first[0],
        first.len() == 0 ==> join(first, sep).len() == 0,
    decreases second.len(),
{
    if first.len() > 0 && second.len() > 0 {
        let all = first + second;
        assert(all.drop_last() =~= first + second.drop_last());
        assert(all.last() == second.last());
        if second.len() == 1 {
            assert(all.drop_last() =~= first);
        } else {
            law_joining_keeps_the_order(first, second.drop_last(), sep);
            assert(join(first, sep) + sep + join(second.drop_last(), sep) + sep + second.last()
                =~= join(first, sep) + sep + join(second, sep));
        }
    }
}

/// A text that is cut keeps its start, and is no longer than allowed.
pub proof fn law_cut_texts_keep_their_start(s: Seq<char>, n: int, mark: Seq<char>)
    requires
        0 <= n,
    ensures
        s.len() <= n ==> clip(s, n) == s && clip_marked(s, n, mark) == s,
        s.len() > n ==> clip(s, n).len() == n && clip_marked(s, n, mark) == clip(s, n) + mark,
        forall|i: int| 0 <= i < s.len() && i < n ==> #[trigger] clip(s, n)[i] == s[i],
{
}

/// Capital letters become small ones, and nothing else changes.
pub proof fn law_lowering_changes_capitals_only(s: Seq<char>, i: int)
    requires
        0 <= i < s.len(),
    ensures
        lower(s).len() == s.len(),
        !('A' <= s[i] <= 'Z') ==> lower(s)[i] == s[i],
        'A' <= s[i] <= 'Z' ==> lower(s)[i] as int == s[i] as int + 32,
        lower(lower(s)) == lower(s),
{
    assert forall|k: int| 0 <= k < s.len() implies lower_char(lower_char(#[trigger] s[k]))
        == lower_char(s[k]) by {}
    assert(lower(lower(s)) =~= lower(s));
}

/// A number that is written is read back, with or without a plus before it; what is larger than
/// allowed, or no number, is none.
pub proof fn law_numbers_are_read_back(n: nat, max: int, s: Seq<char>, i: int)
    ensures
        n <= max ==> parse_number(decimal(n), max) == Some(n as int),
        n > max ==> parse_number(decimal(n), max) is None,
        n <= max ==> parse_number(seq!['+'] + decimal(n), max) == Some(n as int),
        0 <= i < s.len() && !('0' <= s[i] <= '9') && s[0] != '+' ==> parse_number(s, max) is None,
        parse_number(Seq::empty(), max) is None,
{
    lemma_decimal_read_back(n);
    assert(is_digit(decimal(n)[0]));
    assert((seq!['+'] + decimal(n)).skip(1) =~= decimal(n));
    if 0 <= i < s.len() && !('0' <= s[i] <= '9') && s[0] != '+' {
        assert(!is_digit(s[i]));
    }
}

/// Texts are put end to end as they are, and are the same exactly where all their characters are.
pub proof fn law_texts_are_put_end_to_end(
    a: &str,
    b: &str,
    c: &str,
    two: String,
    three: String,
    same: bool,
)
    requires
        call_ensures(concat2, (a, b), two),
        call_ensures(concat3, (a, b, c), three),
        call_ensures(same_text, (a, b), same),
    ensures
        two@ == a@ + b@,
        three@ == a@ + b@ + c@,
        same <==> a@ == b@,
{
}

} // verus!
