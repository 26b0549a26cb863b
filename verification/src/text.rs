//! Text primitives over character sequences.
//!
//! Every function here is stated over the view of a string, a sequence of
//! Unicode scalar values, and is proved against that statement.
use vstd::prelude::*;
use vstd::string::*;

verus! {

/// Appends one character to a string.
///
/// Trusted: `std::string::String::push` appends the given `char` to the end.
pub assume_specification[ std::string::String::push ](s: &mut String, c: char)
    ensures
        final(s)@ == old(s)@.push(c),
;

// ---------------------------------------------------------------------------
// Models
// ---------------------------------------------------------------------------
/// The Unicode `White_Space` property.
pub open spec fn white_space(c: char) -> bool {
    ||| '\u{9}' <= c <= '\u{d}'
    ||| c == ' '
    ||| c == '\u{85}'
    ||| c == '\u{a0}'
    ||| c == '\u{1680}'
    ||| '\u{2000}' <= c <= '\u{200a}'
    ||| c == '\u{2028}'
    ||| c == '\u{2029}'
    ||| c == '\u{202f}'
    ||| c == '\u{205f}'
    ||| c == '\u{3000}'
}

/// `s` without its leading white space.
pub open spec fn trim_start(s: Seq<char>) -> Seq<char>
    decreases s.len(),
{
    if s.len() > 0 && white_space(s.first()) {
        trim_start(s.drop_first())
    } else {
        s
    }
}

/// `s` without its trailing white space.
pub open spec fn trim_end(s: Seq<char>) -> Seq<char>
    decreases s.len(),
{
    if s.len() > 0 && white_space(s.last()) {
        trim_end(s.drop_last())
    } else {
        s
    }
}

/// `s` without leading and trailing white space.
pub open spec fn trimmed(s: Seq<char>) -> Seq<char> {
    trim_end(trim_start(s))
}

/// `s` without the run of `c` at its end.
pub open spec fn trim_end_char(s: Seq<char>, c: char) -> Seq<char>
    decreases s.len(),
{
    if s.len() > 0 && s.last() == c {
        trim_end_char(s.drop_last(), c)
    } else {
        s
    }
}

/// The ASCII lower-case form of one character; other characters are kept.
pub open spec fn lower_char(c: char) -> char {
    if 'A' <= c <= 'Z' {
        ((c as u8) + 32) as char
    } else {
        c
    }
}

/// ASCII lower-casing, character by character.
pub open spec fn lower(s: Seq<char>) -> Seq<char> {
    s.map_values(|c: char| lower_char(c))
}

/// `needle` stands in `hay` at offset `at`.
pub open spec fn stands_at(hay: Seq<char>, needle: Seq<char>, at: int) -> bool {
    0 <= at && at + needle.len() <= hay.len() && hay.subrange(at, at + needle.len()) == needle
}

/// `needle` stands somewhere in `hay`.
pub open spec fn occurs(hay: Seq<char>, needle: Seq<char>) -> bool {
    exists|at: int| #[trigger] stands_at(hay, needle, at)
}

/// `prefix` opens `s`.
pub open spec fn opens(s: Seq<char>, prefix: Seq<char>) -> bool {
    stands_at(s, prefix, 0)
}

/// `suffix` closes `s`.
pub open spec fn closes(s: Seq<char>, suffix: Seq<char>) -> bool {
    stands_at(s, suffix, s.len() - suffix.len())
}

/// `s` with each occurrence of `pattern`, taken from the left without overlap,
/// replaced by `with`. An empty pattern replaces nothing.
pub open spec fn replaced(s: Seq<char>, pattern: Seq<char>, with: Seq<char>) -> Seq<char>
    decreases s.len(),
{
    if pattern.len() == 0 || s.len() < pattern.len() {
        s
    } else if opens(s, pattern) {
        with + replaced(s.skip(pattern.len() as int), pattern, with)
    } else {
        seq![s.first()] + replaced(s.drop_first(), pattern, with)
    }
}

/// The parts one after another with `separator` between neighbours.
pub open spec fn joined(parts: Seq<Seq<char>>, separator: Seq<char>) -> Seq<char>
    decreases parts.len(),
{
    if parts.len() == 0 {
        Seq::empty()
    } else if parts.len() == 1 {
        parts[0]
    } else {
        joined(parts.drop_last(), separator) + separator + parts.last()
    }
}

/// The views of a sequence of strings.
pub open spec fn views(parts: Seq<String>) -> Seq<Seq<char>> {
    parts.map_values(|s: String| s@)
}

/// The text of an optional string.
pub open spec fn optional_text(s: Option<String>) -> Option<Seq<char>> {
    match s {
        Some(t) => Some(t@),
        None => None,
    }
}

/// The decimal digit for a value below ten.
pub open spec fn digit(d: nat) -> char {
    (48 + d) as char
}

/// The decimal numeral of `n`, without leading zeros.
pub open spec fn decimal(n: nat) -> Seq<char>
    decreases n,
{
    if n < 10 {
        seq![digit(n)]
    } else {
        decimal(n / 10).push(digit(n % 10))
    }
}

// ---------------------------------------------------------------------------
// Conversions
// ---------------------------------------------------------------------------
/// The characters of a string.
pub fn chars_of(s: &str) -> (chars: Vec<char>)
    ensures
        chars@ == s@,
{
    let mut chars: Vec<char> = Vec::new();
    for c in iter: s.chars()
        invariant
            iter.seq() == s@,
            chars@ == s@.take(iter.index()),
    {
        chars.push(c);
    }
    chars
}

/// The string made of `chars[from..to]`.
pub fn string_of(chars: &Vec<char>, from: usize, to: usize) -> (s: String)
    requires
        from <= to <= chars@.len(),
    ensures
        s@ == chars@.subrange(from as int, to as int),
{
    let mut s = String::new();
    let mut i: usize = from;
    while i < to
        invariant
            from <= i <= to <= chars@.len(),
            s@ == chars@.subrange(from as int, i as int),
        decreases to - i,
    {
        s.push(chars[i]);
        i += 1;
    }
    s
}

/// A new string with the contents of `s`.
pub fn owned(s: &str) -> (r: String)
    ensures
        r@ == s@,
{
    s.to_owned()
}

/// The concatenation of two strings.
pub fn concat(a: &str, b: &str) -> (r: String)
    ensures
        r@ == a@ + b@,
{
    let mut r = a.to_owned();
    r.append(b);
    r
}

/// The concatenation of three strings.
pub fn concat3(a: &str, b: &str, c: &str) -> (r: String)
    ensures
        r@ == a@ + b@ + c@,
{
    let mut r = concat(a, b);
    r.append(c);
    r
}

// ---------------------------------------------------------------------------
// Comparison and search
// ---------------------------------------------------------------------------
/// `needle` stands in `hay` at offset `at`.
fn chars_stand_at(hay: &Vec<char>, needle: &Vec<char>, at: usize) -> (r: bool)
    requires
        at + needle@.len() <= hay@.len(),
    ensures
        r == stands_at(hay@, needle@, at as int),
{
    let mut i: usize = 0;
    while i < needle.len()
        invariant
            0 <= i <= needle@.len(),
            at + needle@.len() <= hay.len(),
            forall|k: int| 0 <= k < i ==> hay@[at + k] == needle@[k],
        decreases needle@.len() - i,
    {
        if hay[at + i] != needle[i] {
            assert(hay@.subrange(at as int, at + needle@.len())[i as int] != needle@[i as int]);
            return false;
        }
        i += 1;
    }
    assert(hay@.subrange(at as int, at + needle@.len()) =~= needle@);
    true
}

/// Whether two strings hold the same characters.
pub fn same_text(a: &str, b: &str) -> (r: bool)
    ensures
        r == (a@ == b@),
{
    let left = chars_of(a);
    let right = chars_of(b);
    if left.len() != right.len() {
        return false;
    }
    let r = chars_stand_at(&left, &right, 0);
    assert(left@.subrange(0, right@.len() as int) =~= left@);
    r
}

/// Whether `needle` stands somewhere in `hay`.
pub fn contains(hay: &str, needle: &str) -> (r: bool)
    ensures
        r == occurs(hay@, needle@),
{
    let text = chars_of(hay);
    let wanted = chars_of(needle);
    if text.len() < wanted.len() {
        return false;
    }
    let last: usize = text.len() - wanted.len();
    let mut at: usize = 0;
    while at <= last
        invariant
            text@ == hay@,
            wanted@ == needle@,
            last == text@.len() - wanted@.len(),
            at <= last + 1,
            forall|k: int| 0 <= k < at ==> !#[trigger] stands_at(hay@, needle@, k),
        decreases last + 1 - at,
    {
        if chars_stand_at(&text, &wanted, at) {
            return true;
        }
        if at == last {
            return false;
        }
        at += 1;
    }
    false
}

/// Whether `suffix` closes `s`.
pub fn ends_with(s: &str, suffix: &str) -> (r: bool)
    ensures
        r == closes(s@, suffix@),
{
    let text = chars_of(s);
    let wanted = chars_of(suffix);
    if text.len() < wanted.len() {
        return false;
    }
    let at: usize = text.len() - wanted.len();
    chars_stand_at(&text, &wanted, at)
}

/// What follows `prefix` in `s`, if `prefix` opens it.
pub fn strip_prefix(s: &str, prefix: &str) -> (r: Option<String>)
    ensures
        match r {
            Some(rest) => opens(s@, prefix@) && rest@ == s@.skip(prefix@.len() as int),
            None => !opens(s@, prefix@),
        },
{
    let text = chars_of(s);
    let wanted = chars_of(prefix);
    if text.len() < wanted.len() || !chars_stand_at(&text, &wanted, 0) {
        return None;
    }
    let rest = string_of(&text, wanted.len(), text.len());
    assert(rest@ =~= s@.skip(prefix@.len() as int));
    Some(rest)
}

// ---------------------------------------------------------------------------
// Trimming
// ---------------------------------------------------------------------------
/// Whether a character is white space.
pub fn is_white_space(c: char) -> (r: bool)
    ensures
        r == white_space(c),
{
    ('\u{9}' <= c && c <= '\u{d}') || c == ' ' || c == '\u{85}' || c == '\u{a0}' || c
        == '\u{1680}' || ('\u{2000}' <= c && c <= '\u{200a}') || c == '\u{2028}' || c == '\u{2029}'
        || c == '\u{202f}' || c == '\u{205f}' || c == '\u{3000}'
}

/// `s` without leading and trailing white space.
pub fn trim(s: &str) -> (r: &str)
    ensures
        r@ == trimmed(s@),
{
    let text = chars_of(s);
    let mut start: usize = 0;
    assert(s@.skip(0) =~= s@);
    while start < text.len() && is_white_space(text[start])
        invariant
            text@ == s@,
            start <= text@.len(),
            trim_start(s@) == trim_start(s@.skip(start as int)),
        decreases text@.len() - start,
    {
        assert(s@.skip(start as int).drop_first() =~= s@.skip(start + 1));
        start += 1;
    }
    let ghost body = s@.skip(start as int);
    assert(trim_start(s@) == body);
    let mut end: usize = text.len();
    assert(body.take(body.len() as int) =~= body);
    while start < end && is_white_space(text[end - 1])
        invariant
            text@ == s@,
            start <= end <= text@.len(),
            body == s@.skip(start as int),
            trim_end(body) == trim_end(body.take(end - start)),
        decreases end,
    {
        assert(body.take(end - start).drop_last() =~= body.take(end - 1 - start));
        end -= 1;
    }
    assert(body.take(end - start) =~= s@.subrange(start as int, end as int));
    s.substring_char(start, end)
}

/// `s` without the run of `c` at its end.
pub fn trim_end_matches(s: &str, c: char) -> (r: &str)
    ensures
        r@ == trim_end_char(s@, c),
{
    let text = chars_of(s);
    let mut end: usize = text.len();
    assert(s@.take(s@.len() as int) =~= s@);
    while 0 < end && text[end - 1] == c
        invariant
            text@ == s@,
            end <= text@.len(),
            trim_end_char(s@, c) == trim_end_char(s@.take(end as int), c),
        decreases end,
    {
        assert(s@.take(end as int).drop_last() =~= s@.take(end - 1));
        end -= 1;
    }
    assert(s@.take(end as int) =~= s@.subrange(0, end as int));
    s.substring_char(0, end)
}

// ---------------------------------------------------------------------------
// Case
// ---------------------------------------------------------------------------
/// ASCII lower-casing.
pub fn to_ascii_lowercase(s: &str) -> (r: String)
    ensures
        r@ == lower(s@),
{
    let mut r = String::new();
    for c in iter: s.chars()
        invariant
            iter.seq() == s@,
            r@ == lower(s@.take(iter.index())),
    {
        let l: char = if 'A' <= c && c <= 'Z' {
            ((c as u8) + 32) as char
        } else {
            c
        };
        assert(lower(s@.take(iter.index() + 1)) =~= lower(s@.take(iter.index())).push(l));
        r.push(l);
    }
    assert(s@.take(s@.len() as int) =~= s@);
    r
}

/// Whether two strings agree up to ASCII case.
pub fn eq_ignore_ascii_case(a: &str, b: &str) -> (r: bool)
    ensures
        r == (lower(a@) == lower(b@)),
{
    let left = to_ascii_lowercase(a);
    let right = to_ascii_lowercase(b);
    same_text(left.as_str(), right.as_str())
}

// ---------------------------------------------------------------------------
// Building
// ---------------------------------------------------------------------------
/// `s` with each occurrence of `pattern` replaced by `with`.
pub fn replace(s: &str, pattern: &str, with: &str) -> (r: String)
    requires
        pattern@.len() > 0,
    ensures
        r@ == replaced(s@, pattern@, with@),
{
    let text = chars_of(s);
    let wanted = chars_of(pattern);
    let mut r = String::new();
    let mut i: usize = 0;
    assert(s@.skip(0) =~= s@);
    assert(r@ + s@ =~= s@);
    while i <= text.len() && text.len() - i >= wanted.len()
        invariant
            text@ == s@,
            wanted@ == pattern@,
            pattern@.len() > 0,
            i <= text@.len(),
            replaced(s@, pattern@, with@) =~= r@ + replaced(s@.skip(i as int), pattern@, with@),
        decreases text@.len() - i,
    {
        let ghost rest = s@.skip(i as int);
        let ghost before = r@;
        assert(forall|k: int|
            0 <= k ==> (stands_at(s@, pattern@, i + k) <==> stands_at(rest, pattern@, k))) by {
            assert forall|k: int| 0 <= k implies (stands_at(s@, pattern@, i + k) <==> stands_at(
                rest,
                pattern@,
                k,
            )) by {
                if i + k + pattern@.len() <= s@.len() {
                    assert(s@.subrange(i + k, i + k + pattern@.len()) =~= rest.subrange(
                        k,
                        k + pattern@.len(),
                    ));
                }
            }
        }
        if chars_stand_at(&text, &wanted, i) {
            assert(stands_at(s@, pattern@, i + 0));
            assert(opens(rest, pattern@));
            r.append(with);
            assert(rest.skip(pattern@.len() as int) =~= s@.skip(i + pattern@.len()));
            i += wanted.len();
        } else {
            assert(!stands_at(s@, pattern@, i + 0));
            assert(!opens(rest, pattern@));
            r.push(text[i]);
            assert(rest.drop_first() =~= s@.skip(i + 1));
            assert(r@ =~= before + seq![rest.first()]);
            i += 1;
        }
    }
    let ghost before = r@;
    let tail = string_of(&text, i, text.len());
    r.append(tail.as_str());
    assert(tail@ =~= s@.skip(i as int));
    assert(replaced(s@.skip(i as int), pattern@, with@) == s@.skip(i as int));
    r
}

/// The parts one after another with `separator` between neighbours.
pub fn join(parts: &Vec<String>, separator: &str) -> (r: String)
    ensures
        r@ == joined(views(parts@), separator@),
{
    let mut r = String::new();
    let mut i: usize = 0;
    while i < parts.len()
        invariant
            i <= parts@.len(),
            r@ == joined(views(parts@).take(i as int), separator@),
        decreases parts@.len() - i,
    {
        assert(views(parts@).take(i + 1).drop_last() =~= views(parts@).take(i as int));
        assert(views(parts@).take(i + 1).last() == parts@[i as int]@);
        if i > 0 {
            r.append(separator);
        } else {
            assert(r@ + parts@[i as int]@ =~= parts@[i as int]@);
        }
        r.append(parts[i].as_str());
        i += 1;
    }
    assert(views(parts@).take(parts@.len() as int) =~= views(parts@));
    r
}

/// The decimal numeral of `n`.
pub fn decimal_string(n: u64) -> (r: String)
    ensures
        r@ == decimal(n as nat),
    decreases n,
{
    let mut r = if n < 10 {
        String::new()
    } else {
        decimal_string(n / 10)
    };
    let d: u8 = 48 + (n % 10) as u8;
    r.push(d as char);
    assert(r@ =~= decimal(n as nat));
    r
}

// ---------------------------------------------------------------------------
// Laws
// ---------------------------------------------------------------------------
/// A text with a character other than white space stays non-empty when trimmed.
pub proof fn trimmed_keeps_content(s: Seq<char>, at: int)
    requires
        0 <= at < s.len(),
        !white_space(s[at]),
    ensures
        trimmed(s).len() > 0,
{
    lemma_trim_start_keeps(s, at);
    let t = trim_start(s);
    let k = choose|k: int| 0 <= k < t.len() && !white_space(#[trigger] t[k]);
    lemma_trim_end_keeps(t, k);
}

proof fn lemma_trim_start_keeps(s: Seq<char>, at: int)
    requires
        0 <= at < s.len(),
        !white_space(s[at]),
    ensures
        exists|k: int|
            0 <= k < trim_start(s).len() && !white_space(#[trigger] trim_start(s)[k]),
    decreases s.len(),
{
    if white_space(s.first()) {
        assert(s.drop_first()[at - 1] == s[at]);
        lemma_trim_start_keeps(s.drop_first(), at - 1);
        assert(trim_start(s) == trim_start(s.drop_first()));
    } else {
        assert(!white_space(trim_start(s)[0]));
    }
}

proof fn lemma_trim_end_keeps(s: Seq<char>, at: int)
    requires
        0 <= at < s.len(),
        !white_space(s[at]),
    ensures
        trim_end(s).len() > 0,
    decreases s.len(),
{
    if white_space(s.last()) {
        assert(s.drop_last()[at] == s[at]);
        lemma_trim_end_keeps(s.drop_last(), at);
    }
}

/// Trimming a trimmed text changes nothing.
pub proof fn trimmed_idempotent(s: Seq<char>)
    ensures
        trimmed(trimmed(s)) == trimmed(s),
{
    let t = trim_start(s);
    lemma_trim_start_starts(s);
    lemma_trim_end_is_prefix(t);
    let u = trim_end(t);
    if u.len() > 0 {
        assert(u.first() == t.first());
    }
    assert(trim_start(u) == u);
    lemma_trim_end_ends(t);
}

proof fn lemma_trim_start_starts(s: Seq<char>)
    ensures
        trim_start(s).len() > 0 ==> !white_space(trim_start(s).first()),
    decreases s.len(),
{
    if s.len() > 0 && white_space(s.first()) {
        lemma_trim_start_starts(s.drop_first());
    }
}

proof fn lemma_trim_end_ends(s: Seq<char>)
    ensures
        trim_end(s).len() > 0 ==> !white_space(trim_end(s).last()),
    decreases s.len(),
{
    if s.len() > 0 && white_space(s.last()) {
        lemma_trim_end_ends(s.drop_last());
    }
}

proof fn lemma_trim_end_is_prefix(s: Seq<char>)
    ensures
        trim_end(s).len() <= s.len(),
        trim_end(s) == s.take(trim_end(s).len() as int),
    decreases s.len(),
{
    if s.len() > 0 && white_space(s.last()) {
        lemma_trim_end_is_prefix(s.drop_last());
        assert(s.drop_last().take(trim_end(s).len() as int) =~= s.take(trim_end(s).len() as int));
    } else {
        assert(s.take(s.len() as int) =~= s);
    }
}

/// Different numbers have different decimal numerals.
pub proof fn decimal_injective(a: nat, b: nat)
    requires
        decimal(a) == decimal(b),
    ensures
        a == b,
    decreases a,
{
    lemma_decimal_length(a);
    lemma_decimal_length(b);
    assert(decimal(a).last() == digit(a % 10));
    assert(decimal(b).last() == digit(b % 10));
    if a >= 10 && b >= 10 {
        assert(decimal(a).drop_last() =~= decimal(a / 10));
        assert(decimal(b).drop_last() =~= decimal(b / 10));
        decimal_injective(a / 10, b / 10);
    }
}

proof fn lemma_decimal_length(n: nat)
    ensures
        decimal(n).len() >= 1,
        n >= 10 <==> decimal(n).len() >= 2,
    decreases n,
{
    if n >= 10 {
        lemma_decimal_length(n / 10);
    }
}

/// A numeral holds decimal digits only.
pub proof fn decimal_has_digits(n: nat)
    ensures
        forall|i: int| 0 <= i < decimal(n).len() ==> '0' <= #[trigger] decimal(n)[i] <= '9',
    decreases n,
{
    if n >= 10 {
        decimal_has_digits(n / 10);
        let shorter = decimal(n / 10);
        assert forall|i: int| 0 <= i < decimal(n).len() implies '0' <= #[trigger] decimal(n)[i]
            <= '9' by {
            if i < shorter.len() {
                assert(decimal(n)[i] == shorter[i]);
            }
        }
    }
}

/// Text without the separator can be taken apart again: two sequences of as many
/// parts that join to the same text are the same.
pub proof fn joined_injective(a: Seq<Seq<char>>, b: Seq<Seq<char>>, separator: char)
    requires
        a.len() == b.len(),
        forall|i: int| 0 <= i < a.len() ==> !(#[trigger] a[i]).contains(separator),
        forall|i: int| 0 <= i < b.len() ==> !(#[trigger] b[i]).contains(separator),
        joined(a, seq![separator]) == joined(b, seq![separator]),
    ensures
        a == b,
    decreases a.len(),
{
    let sep = seq![separator];
    if a.len() == 0 {
        assert(a =~= b);
    } else if a.len() == 1 {
        assert(a[0] == b[0]);
        assert(a =~= b);
    } else {
        let p = joined(a.drop_last(), sep);
        let q = joined(b.drop_last(), sep);
        let x = a.last();
        let y = b.last();
        let whole = joined(a, sep);
        assert(whole =~= p + sep + x);
        assert(whole =~= q + sep + y);
        if x.len() < y.len() {
            let at = whole.len() - x.len() - 1;
            assert(whole[at] == separator);
            assert(y[at - (q.len() + 1)] == separator);
        } else if y.len() < x.len() {
            let at = whole.len() - y.len() - 1;
            assert(whole[at] == separator);
            assert(x[at - (p.len() + 1)] == separator);
        }
        assert(p =~= whole.take(p.len() as int));
        assert(q =~= whole.take(q.len() as int));
        assert(x =~= whole.skip(p.len() as int + 1));
        assert(y =~= whole.skip(q.len() as int + 1));
        assert forall|i: int| 0 <= i < a.drop_last().len() implies !(
        #[trigger] a.drop_last()[i]).contains(separator) by {
            assert(a.drop_last()[i] == a[i]);
        }
        assert forall|i: int| 0 <= i < b.drop_last().len() implies !(
        #[trigger] b.drop_last()[i]).contains(separator) by {
            assert(b.drop_last()[i] == b[i]);
        }
        joined_injective(a.drop_last(), b.drop_last(), separator);
        assert(a =~= a.drop_last().push(x));
        assert(b =~= b.drop_last().push(y));
    }
}

/// Trimming takes white space off both ends and nothing else: whatever white space
/// surrounds a text that neither opens nor closes with any, the text is what is left,
/// character for character.
pub proof fn trimming_leaves_the_middle(before: Seq<char>, middle: Seq<char>, after: Seq<char>)
    requires
        forall|i: int| 0 <= i < before.len() ==> white_space(#[trigger] before[i]),
        forall|i: int| 0 <= i < after.len() ==> white_space(#[trigger] after[i]),
        middle.len() > 0 ==> !white_space(middle[0]) && !white_space(middle[middle.len() - 1]),
    ensures
        trimmed(before + middle + after) == middle,
{
    lemma_trim_start_drops(before, middle + after);
    assert(before + middle + after =~= before + (middle + after));
    if middle.len() > 0 {
        assert((middle + after).first() == middle[0]);
        lemma_trim_end_drops(middle, after);
    } else {
        assert(middle + after =~= after + middle);
        lemma_trim_start_drops(after, middle);
    }
}

proof fn lemma_trim_start_drops(run: Seq<char>, rest: Seq<char>)
    requires
        forall|i: int| 0 <= i < run.len() ==> white_space(#[trigger] run[i]),
    ensures
        trim_start(run + rest) == trim_start(rest),
    decreases run.len(),
{
    if run.len() > 0 {
        let shorter = run.drop_first();
        assert((run + rest).first() == run[0]);
        assert((run + rest).drop_first() =~= shorter + rest);
        assert forall|i: int| 0 <= i < shorter.len() implies white_space(#[trigger] shorter[i]) by {
            assert(shorter[i] == run[i + 1]);
        }
        lemma_trim_start_drops(shorter, rest);
    } else {
        assert(run + rest =~= rest);
    }
}

proof fn lemma_trim_end_drops(rest: Seq<char>, run: Seq<char>)
    requires
        forall|i: int| 0 <= i < run.len() ==> white_space(#[trigger] run[i]),
    ensures
        trim_end(rest + run) == trim_end(rest),
    decreases run.len(),
{
    if run.len() > 0 {
        let shorter = run.drop_last();
        assert((rest + run).last() == run[run.len() - 1]);
        assert((rest + run).drop_last() =~= rest + shorter);
        assert forall|i: int| 0 <= i < shorter.len() implies white_space(#[trigger] shorter[i]) by {
            assert(shorter[i] == run[i]);
        }
        lemma_trim_end_drops(rest, shorter);
    } else {
        assert(rest + run =~= rest);
    }
}

/// Every text is its trimmed form with white space around it, and the trimmed form
/// neither opens nor closes with any.
pub proof fn trimming_keeps_the_middle(s: Seq<char>) -> (from: int)
    ensures
        0 <= from,
        from + trimmed(s).len() <= s.len(),
        trimmed(s) == s.subrange(from, from + trimmed(s).len()),
        forall|i: int|
            0 <= i < s.len() && !(from <= i < from + trimmed(s).len()) ==> white_space(
                #[trigger] s[i],
            ),
        trimmed(s).len() > 0 ==> !white_space(trimmed(s)[0]) && !white_space(
            trimmed(s)[trimmed(s).len() - 1],
        ),
{
    let from = lemma_trim_start_is_suffix(s);
    let t = trim_start(s);
    lemma_trim_start_starts(s);
    lemma_trim_end_is_prefix(t);
    lemma_trim_end_ends(t);
    lemma_trim_end_drops_space(t);
    let u = trimmed(s);
    assert(u =~= s.subrange(from, from + u.len()));
    assert forall|i: int| 0 <= i < s.len() && !(from <= i < from + u.len()) implies white_space(
        #[trigger] s[i],
    ) by {
        if i >= from {
            assert(t[i - from] == s[i]);
        }
    }
    if u.len() > 0 {
        assert(u[0] == t.first());
    }
    from
}

proof fn lemma_trim_start_is_suffix(s: Seq<char>) -> (from: int)
    ensures
        0 <= from <= s.len(),
        trim_start(s) == s.skip(from),
        forall|i: int| 0 <= i < from ==> white_space(#[trigger] s[i]),
    decreases s.len(),
{
    if s.len() > 0 && white_space(s.first()) {
        let rest = s.drop_first();
        let from = lemma_trim_start_is_suffix(rest);
        assert(rest.skip(from) =~= s.skip(from + 1));
        assert forall|i: int| 0 <= i < from + 1 implies white_space(#[trigger] s[i]) by {
            if i > 0 {
                assert(rest[i - 1] == s[i]);
            }
        }
        from + 1
    } else {
        assert(s.skip(0) =~= s);
        0
    }
}

proof fn lemma_trim_end_drops_space(s: Seq<char>)
    ensures
        forall|i: int| trim_end(s).len() <= i < s.len() ==> white_space(#[trigger] s[i]),
    decreases s.len(),
{
    if s.len() > 0 && white_space(s.last()) {
        let rest = s.drop_last();
        lemma_trim_end_drops_space(rest);
        assert forall|i: int| trim_end(s).len() <= i < s.len() implies white_space(
            #[trigger] s[i],
        ) by {
            if i < rest.len() {
                assert(rest[i] == s[i]);
            }
        }
    }
}

/// No character that shows is white space. In ASCII the blank, the tab and the line
/// ends are, and beyond it the spaces and separators of Unicode.
pub proof fn visible_characters_are_no_space(c: char)
    ensures
        33 <= c as u32 <= 132 ==> !white_space(c),
        c as u32 <= 132 ==> (white_space(c) <==> c as u32 == 32 || 9 <= c as u32 <= 13),
        c as u32 > 132 ==> (white_space(c) <==> seq![
            0x85u32,
            0xa0,
            0x1680,
            0x2000,
            0x2001,
            0x2002,
            0x2003,
            0x2004,
            0x2005,
            0x2006,
            0x2007,
            0x2008,
            0x2009,
            0x200a,
            0x2028,
            0x2029,
            0x202f,
            0x205f,
            0x3000,
        ].contains(c as u32)),
{
    let spaces = seq![
        0x85u32,
        0xa0,
        0x1680,
        0x2000,
        0x2001,
        0x2002,
        0x2003,
        0x2004,
        0x2005,
        0x2006,
        0x2007,
        0x2008,
        0x2009,
        0x200a,
        0x2028,
        0x2029,
        0x202f,
        0x205f,
        0x3000,
    ];
    if c as u32 > 132 && white_space(c) {
        let code = c as u32;
        let at: int = if code == 0x85 {
            0
        } else if code == 0xa0 {
            1
        } else if code == 0x1680 {
            2
        } else if code <= 0x200a {
            code - 0x2000 + 3
        } else if code <= 0x2029 {
            code - 0x2028 + 14
        } else if code == 0x202f {
            16
        } else if code == 0x205f {
            17
        } else {
            18
        };
        assert(spaces[at] == code);
    }
}

/// A run of one character at the end of a text is taken off, and nothing else.
pub proof fn trailing_run_is_taken_off(s: Seq<char>, c: char, n: nat)
    requires
        s.len() > 0 ==> s[s.len() - 1] != c,
    ensures
        trim_end_char(s + Seq::new(n, |i: int| c), c) == s,
    decreases n,
{
    let whole = s + Seq::new(n, |i: int| c);
    if n > 0 {
        trailing_run_is_taken_off(s, c, (n - 1) as nat);
        assert(whole.last() == c);
        assert(whole.drop_last() =~= s + Seq::new((n - 1) as nat, |i: int| c));
    } else {
        assert(whole =~= s);
    }
}

/// Lower-casing turns each of the 26 capitals into its small letter, which stands 32
/// places further on, and keeps every other character.
pub proof fn lowering_turns_capitals_only(s: Seq<char>)
    ensures
        lower(s).len() == s.len(),
        forall|i: int|
            0 <= i < s.len() ==> (#[trigger] lower(s)[i]) as u32 == (if 65 <= s[i] as u32 <= 90 {
                s[i] as u32 + 32
            } else {
                s[i] as int
            }),
{
}

/// Two characters are the same letter, in either case, or the same character.
pub open spec fn same_letter(a: char, b: char) -> bool {
    ||| a == b
    ||| 65 <= a as u32 <= 90 && b as u32 == a as u32 + 32
    ||| 65 <= b as u32 <= 90 && a as u32 == b as u32 + 32
}

/// Two texts have the same lower-case form exactly if they agree letter for letter,
/// in either case.
pub proof fn lowering_forgets_case_only(a: Seq<char>, b: Seq<char>)
    ensures
        lower(a) == lower(b) <==> a.len() == b.len() && forall|i: int|
            0 <= i < a.len() ==> same_letter(#[trigger] a[i], b[i]),
{
    if lower(a) == lower(b) {
        assert(lower(a).len() == lower(b).len());
        assert forall|i: int| 0 <= i < a.len() implies same_letter(#[trigger] a[i], b[i]) by {
            assert(lower(a)[i] == lower(b)[i]);
        }
    }
    if a.len() == b.len() && forall|i: int|
        0 <= i < a.len() ==> same_letter(#[trigger] a[i], b[i]) {
        assert forall|i: int| 0 <= i < a.len() implies lower(a)[i] == lower(b)[i] by {
            assert(same_letter(a[i], b[i]));
        }
        assert(lower(a) =~= lower(b));
    }
}

/// A text occurs in another exactly if the other is that text with something before
/// and something behind it.
pub proof fn occurring_is_standing_between(
    hay: Seq<char>,
    before: Seq<char>,
    needle: Seq<char>,
    after: Seq<char>,
)
    ensures
        occurs(before + needle + after, needle),
        opens(needle + after, needle),
        closes(before + needle, needle),
        occurs(hay, needle) ==> exists|at: int|
            0 <= at <= hay.len() - needle.len() && hay == #[trigger] hay.take(at) + needle
                + hay.skip(at + needle.len()),
        opens(hay, needle) ==> hay == needle + hay.skip(needle.len() as int),
        closes(hay, needle) ==> hay == hay.take(hay.len() - needle.len()) + needle,
{
    let whole = before + needle + after;
    assert(whole.subrange(before.len() as int, before.len() as int + needle.len()) =~= needle);
    assert(stands_at(whole, needle, before.len() as int));
    assert((needle + after).subrange(0, needle.len() as int) =~= needle);
    assert((before + needle).subrange(before.len() as int, before.len() as int + needle.len())
        =~= needle);
    if occurs(hay, needle) {
        let at = choose|at: int| #[trigger] stands_at(hay, needle, at);
        lemma_taken_apart(hay, needle, at);
    }
    if opens(hay, needle) {
        lemma_taken_apart(hay, needle, 0);
        assert(hay =~= needle + hay.skip(needle.len() as int));
    }
    if closes(hay, needle) {
        lemma_taken_apart(hay, needle, hay.len() - needle.len());
        assert(hay =~= hay.take(hay.len() - needle.len()) + needle);
    }
}

proof fn lemma_taken_apart(hay: Seq<char>, needle: Seq<char>, at: int)
    requires
        stands_at(hay, needle, at),
    ensures
        0 <= at <= hay.len() - needle.len(),
        hay == hay.take(at) + needle + hay.skip(at + needle.len()),
{
    assert(hay =~= hay.take(at) + hay.subrange(at, at + needle.len()) + hay.skip(
        at + needle.len(),
    ));
}

/// The text `needle` stands in `hay` at `at`, letter for letter, in either case.
pub open spec fn spelled_at(hay: Seq<char>, needle: Seq<char>, at: int) -> bool {
    &&& 0 <= at <= hay.len() - needle.len()
    &&& forall|i: int| 0 <= i < needle.len() ==> same_letter(#[trigger] hay[at + i], needle[i])
}

/// Lower-cased texts occur in one another exactly where the letters agree.
pub proof fn occurring_up_to_case(hay: Seq<char>, needle: Seq<char>)
    ensures
        occurs(lower(hay), lower(needle)) <==> exists|at: int| #[trigger]
            spelled_at(hay, needle, at),
        opens(lower(hay), lower(needle)) <==> spelled_at(hay, needle, 0),
        closes(lower(hay), lower(needle)) <==> spelled_at(hay, needle, hay.len() - needle.len()),
{
    assert forall|at: int| #[trigger] stands_at(lower(hay), lower(needle), at) <==> spelled_at(
        hay,
        needle,
        at,
    ) by {
        lemma_spelled(hay, needle, at);
    }
    if exists|at: int| #[trigger] spelled_at(hay, needle, at) {
        let at = choose|at: int| #[trigger] spelled_at(hay, needle, at);
        assert(stands_at(lower(hay), lower(needle), at));
    }
    assert(stands_at(lower(hay), lower(needle), 0) <==> spelled_at(hay, needle, 0));
    let last = hay.len() - needle.len();
    assert(stands_at(lower(hay), lower(needle), last) <==> spelled_at(hay, needle, last));
}

proof fn lemma_spelled(hay: Seq<char>, needle: Seq<char>, at: int)
    ensures
        stands_at(lower(hay), lower(needle), at) <==> spelled_at(hay, needle, at),
{
    if 0 <= at <= hay.len() - needle.len() {
        let part = hay.subrange(at, at + needle.len());
        assert(lower(hay).subrange(at, at + needle.len()) =~= lower(part));
        lowering_forgets_case_only(part, needle);
        assert forall|i: int| 0 <= i < needle.len() implies part[i] == #[trigger] hay[at + i] by {}
        if spelled_at(hay, needle, at) {
            assert forall|i: int| 0 <= i < part.len() implies same_letter(
                #[trigger] part[i],
                needle[i],
            ) by {
                assert(same_letter(hay[at + i], needle[i]));
            }
        }
        if lower(part) == lower(needle) {
            assert forall|i: int| 0 <= i < needle.len() implies same_letter(
                #[trigger] hay[at + i],
                needle[i],
            ) by {
                assert(same_letter(part[i], needle[i]));
            }
        }
    }
}

/// Replacing puts the new text in the place of the first occurrence of the pattern,
/// keeps what stands before it, and goes on behind it. Without an occurrence nothing
/// changes.
pub proof fn replacing_goes_from_the_left(
    before: Seq<char>,
    pattern: Seq<char>,
    after: Seq<char>,
    with: Seq<char>,
)
    requires
        pattern.len() > 0,
        forall|at: int|
            0 <= at < before.len() ==> !#[trigger] stands_at(before + pattern + after, pattern, at),
    ensures
        replaced(before + pattern + after, pattern, with) == before + with + replaced(
            after,
            pattern,
            with,
        ),
    decreases before.len(),
{
    let whole = before + pattern + after;
    if before.len() == 0 {
        assert(whole.subrange(0, pattern.len() as int) =~= pattern);
        assert(whole.skip(pattern.len() as int) =~= after);
        assert(before + with =~= with);
    } else {
        let shorter = before.drop_first();
        let rest = shorter + pattern + after;
        assert(whole.drop_first() =~= rest);
        assert(!stands_at(whole, pattern, 0));
        assert forall|at: int| 0 <= at < shorter.len() implies !#[trigger] stands_at(
            rest,
            pattern,
            at,
        ) by {
            assert(rest.subrange(at, at + pattern.len()) =~= whole.subrange(
                at + 1,
                at + 1 + pattern.len(),
            ));
            assert(!stands_at(whole, pattern, at + 1));
        }
        replacing_goes_from_the_left(shorter, pattern, after, with);
        assert(seq![whole.first()] + (shorter + with + replaced(after, pattern, with))
            =~= before + with + replaced(after, pattern, with));
    }
}

/// A text in which the pattern does not occur is kept.
pub proof fn nothing_to_replace(s: Seq<char>, pattern: Seq<char>, with: Seq<char>)
    requires
        !occurs(s, pattern),
    ensures
        replaced(s, pattern, with) == s,
    decreases s.len(),
{
    if pattern.len() > 0 && s.len() >= pattern.len() {
        let rest = s.drop_first();
        assert(!stands_at(s, pattern, 0));
        assert(!occurs(rest, pattern)) by {
            if occurs(rest, pattern) {
                let at = choose|at: int| #[trigger] stands_at(rest, pattern, at);
                assert(rest.subrange(at, at + pattern.len()) =~= s.subrange(
                    at + 1,
                    at + 1 + pattern.len(),
                ));
                assert(stands_at(s, pattern, at + 1));
            }
        }
        nothing_to_replace(rest, pattern, with);
        assert(seq![s.first()] + rest =~= s);
    }
}

/// Joining two lists of parts is joining each and putting the separator between them.
/// One part stands alone, and no part makes no text.
pub proof fn joining_puts_separators_between(
    first: Seq<Seq<char>>,
    second: Seq<Seq<char>>,
    part: Seq<char>,
    separator: Seq<char>,
)
    ensures
        joined(Seq::empty(), separator) == Seq::<char>::empty(),
        joined(seq![part], separator) == part,
        first.len() > 0 && second.len() > 0 ==> joined(first + second, separator) == joined(
            first,
            separator,
        ) + separator + joined(second, separator),
    decreases second.len(),
{
    if first.len() > 0 && second.len() > 0 {
        let whole = first + second;
        let shorter = second.drop_last();
        assert(whole.drop_last() =~= first + shorter);
        assert(whole.last() == second.last());
        if second.len() == 1 {
            assert(first + shorter =~= first);
            assert(second[0] == second.last());
        } else {
            joining_puts_separators_between(first, shorter, part, separator);
            assert(joined(whole, separator) =~= joined(first, separator) + separator + joined(
                second,
                separator,
            ));
        }
    }
}

/// The number that a sequence of decimal digits stands for.
pub open spec fn numeral_value(digits: Seq<char>) -> int
    decreases digits.len(),
{
    if digits.len() == 0 {
        0
    } else {
        10 * numeral_value(digits.drop_last()) + (digits.last() as u32 - 48)
    }
}

/// A numeral stands for its number, in digits only and without a leading zero.
pub proof fn numeral_stands_for_its_number(n: nat)
    ensures
        numeral_value(decimal(n)) == n,
        decimal(n).len() > 0,
        forall|i: int|
            0 <= i < decimal(n).len() ==> 48 <= (#[trigger] decimal(n)[i]) as u32 <= 57,
        decimal(n).len() > 1 ==> decimal(n)[0] as u32 != 48,
    decreases n,
{
    decimal_has_digits(n);
    lemma_decimal_length(n);
    if n >= 10 {
        numeral_stands_for_its_number(n / 10);
        lemma_decimal_length(n / 10);
        assert(decimal(n).drop_last() =~= decimal(n / 10));
        assert(decimal(n)[0] == decimal(n / 10)[0]);
        if n / 10 < 10 {
            assert(decimal(n / 10)[0] == digit(n / 10));
        }
    } else {
        assert(decimal(n).drop_last() =~= Seq::empty());
        assert(numeral_value(decimal(n).drop_last()) == 0);
    }
}

/// A list of strings holds the text of each of them, in order, and an optional string
/// its own.
pub proof fn lists_hold_every_text(parts: Seq<String>, text: String)
    ensures
        views(parts).len() == parts.len(),
        forall|i: int| 0 <= i < parts.len() ==> #[trigger] views(parts)[i] == parts[i]@,
        optional_text(Some(text)) == Some(text@),
        optional_text(None) is None,
{
}

} // verus!
