//! Text building: decimal numbers, the lines of the statistics page and the
//! session token, plus case-insensitive substring search.
use vstd::prelude::*;

verus! {

/// The character of a decimal digit.
pub open spec fn digit_char(d: nat) -> char {
    if d == 0 { '0' }
    else if d == 1 { '1' }
    else if d == 2 { '2' }
    else if d == 3 { '3' }
    else if d == 4 { '4' }
    else if d == 5 { '5' }
    else if d == 6 { '6' }
    else if d == 7 { '7' }
    else if d == 8 { '8' }
    else { '9' }
}

/// The decimal representation of `n`, without leading zeros.
pub open spec fn decimal(n: nat) -> Seq<char>
    decreases n,
{
    if n < 10 {
        seq![digit_char(n)]
    } else {
        decimal(n / 10).push(digit_char(n % 10))
    }
}

/// Appends one character to a string (`String::push`).
#[verifier::external_body]
pub(crate) fn push_char(s: &mut String, c: char)
    ensures
        final(s)@ == old(s)@.push(c),
{
    s.push(c);
}

fn digit(d: u64) -> (c: char)
    requires
        d < 10,
    ensures
        c == digit_char(d as nat),
{
    if d == 0 { '0' }
    else if d == 1 { '1' }
    else if d == 2 { '2' }
    else if d == 3 { '3' }
    else if d == 4 { '4' }
    else if d == 5 { '5' }
    else if d == 6 { '6' }
    else if d == 7 { '7' }
    else if d == 8 { '8' }
    else { '9' }
}

/// Appends the decimal representation of `n`.
pub fn push_decimal(s: &mut String, n: u64)
    ensures
        final(s)@ == old(s)@ + decimal(n as nat),
    decreases n,
{
    if n >= 10 {
        push_decimal(s, n / 10);
    }
    push_char(s, digit(n % 10));
    assert(final(s)@ =~= old(s)@ + decimal(n as nat));
}


/// `label: n`, as the statistics page writes a count.
pub open spec fn stat_line_text(label: Seq<char>, n: nat) -> Seq<char> {
    label + ": "@ + decimal(n)
}

/// A line of the statistics page: the label, a colon and the number.
pub fn stat_line(label: &str, n: u64) -> (line: String)
    ensures
        line@ == stat_line_text(label@, n as nat),
{
    let mut line = label.to_owned();
    line.append(": ");
    push_decimal(&mut line, n);
    line
}

/// Whole days, hours, minutes and seconds of a span of whole seconds,
/// each but the days taken modulo the next larger unit.
pub open spec fn time_parts(secs: nat) -> (nat, nat, nat, nat) {
    (secs / 86400, (secs / 3600) % 24, (secs / 60) % 60, secs % 60)
}

/// `Time: {days}D {hours}h {minutes}m {seconds}s`.
pub open spec fn time_text(secs: nat) -> Seq<char> {
    let (d, h, m, s) = time_parts(secs);
    "Time: "@ + decimal(d) + "D "@ + decimal(h) + "h "@ + decimal(m) + "m "@ + decimal(s) + "s"@
}

/// The time line of the statistics page for a span of whole seconds.
pub fn time_line(secs: u64) -> (line: String)
    ensures
        line@ == time_text(secs as nat),
{
    let mut line = String::new();
    line.append("Time: ");
    push_decimal(&mut line, secs / 86400);
    line.append("D ");
    push_decimal(&mut line, (secs / 3600) % 24);
    line.append("h ");
    push_decimal(&mut line, (secs / 60) % 60);
    line.append("m ");
    push_decimal(&mut line, secs % 60);
    line.append("s");
    line
}

/// The decimal representations of the bytes, one after the other.
pub open spec fn token_text(bytes: Seq<u8>) -> Seq<char>
    decreases bytes.len(),
{
    if bytes.len() == 0 {
        Seq::empty()
    } else {
        token_text(bytes.drop_last()) + decimal(bytes.last() as nat)
    }
}

/// A session token written from random bytes: each byte in decimal, without
/// separators.
pub fn token_from_bytes(bytes: &[u8]) -> (token: String)
    ensures
        token@ == token_text(bytes@),
{
    let mut token = String::new();
    let n = bytes.len();
    for i in 0..n
        invariant
            n == bytes@.len(),
            token@ == token_text(bytes@.take(i as int)),
    {
        let b = bytes[i];
        push_decimal(&mut token, b as u64);
        assert(bytes@.take(i + 1).drop_last() =~= bytes@.take(i as int));
    }
    assert(bytes@.take(n as int) =~= bytes@);
    token
}

/// The characters of a string, in order.
pub fn chars_of(s: &str) -> (v: Vec<char>)
    ensures
        v@ == s@,
{
    let mut v: Vec<char> = Vec::new();
    for c in it: s.chars()
        invariant
            v@ == it.seq().take(it.index() as int),
    {
        v.push(c);
    }
    v
}


/// `needle` occurs in `hay` as a run of consecutive characters.
pub open spec fn occurs_in(hay: Seq<char>, needle: Seq<char>) -> bool {
    exists|i: int|
        0 <= i && i + needle.len() <= hay.len() && #[trigger] hay.subrange(i, i + needle.len())
            == needle
}

fn matches_at(hay: &Vec<char>, needle: &Vec<char>, at: usize) -> (r: bool)
    requires
        at + needle@.len() <= hay@.len(),
    ensures
        r == (hay@.subrange(at as int, at + needle@.len()) == needle@),
{
    let n = needle.len();
    let h = hay.len();
    let mut j: usize = 0;
    while j < n
        invariant
            n == needle@.len(),
            h == hay@.len(),
            at + n <= hay@.len(),
            j <= n,
            forall|k: int| 0 <= k < j ==> hay@[at + k] == needle@[k],
        decreases n - j,
    {
        if hay[at + j] != needle[j] {
            assert(hay@.subrange(at as int, at + n)[j as int] != needle@[j as int]);
            return false;
        }
        j = j + 1;
    }
    assert(hay@.subrange(at as int, at + n) =~= needle@);
    true
}

/// Whether `needle` occurs in `hay` (`str::contains` on characters).
pub fn occurs(hay: &Vec<char>, needle: &Vec<char>) -> (r: bool)
    ensures
        r == occurs_in(hay@, needle@),
{
    let h = hay.len();
    let n = needle.len();
    if n > h {
        return false;
    }
    let last = h - n;
    let mut i: usize = 0;
    loop
        invariant
            h == hay@.len(),
            n == needle@.len(),
            n <= h,
            last == h - n,
            i <= last,
            forall|k: int| 0 <= k < i ==> #[trigger] hay@.subrange(k, k + n) != needle@,
        decreases last - i,
    {
        if matches_at(hay, needle, i) {
            return true;
        }
        if i == last {
            return false;
        }
        i = i + 1;
    }
}

/// What `str::to_lowercase` gives for a string, by its characters.
pub uninterp spec fn lowercase(s: Seq<char>) -> Seq<char>;

/// `str::to_lowercase`: the string with every character in lower case, by the
/// Unicode rules of the standard library.  The result is named `lowercase` of
/// the argument; of its value only this is stated: the empty string stays
/// empty (each character is replaced by its lower case, so nothing comes of
/// nothing).
#[verifier::external_body]
pub(crate) fn to_lowercase(s: &str) -> (r: String)
    ensures
        r@ == lowercase(s@),
        s@.len() == 0 ==> r@.len() == 0,
{
    s.to_lowercase()
}

/// `needle` occurs in `hay` once both are put in lower case.
pub open spec fn occurs_ignoring_case(hay: Seq<char>, needle: Seq<char>) -> bool {
    occurs_in(lowercase(hay), lowercase(needle))
}

/// Case-insensitive substring test, as the skill browser filters names.
pub fn occurs_ignoring_case_in(hay: &str, needle: &str) -> (r: bool)
    ensures
        r == occurs_ignoring_case(hay@, needle@),
        needle@.len() == 0 ==> r,
{
    let h = to_lowercase(hay);
    let n = to_lowercase(needle);
    let hv = chars_of(h.as_str());
    let nv = chars_of(n.as_str());
    if needle.is_empty() {
        assert(hv@.subrange(0int, 0int + nv@.len()) =~= nv@);
        assert(occurs_in(hv@, nv@));
    }
    occurs(&hv, &nv)
}

} // verus!
