//! Verified string helpers: substring search, case folding through a
//! trusted call, decimal formatting and parsing, and ASCII trimming.

use vstd::prelude::*;

use vstd::string::{StringExecFns, StrSliceExecFns};

verus! {

/// Relies on `String::from_utf8` (std): ASCII bytes are valid UTF-8, and
/// decode one character per byte, each the character with that code.
#[verifier::external_body]
pub(crate) fn ascii_bytes_to_string(v: Vec<u8>) -> (r: String)
    requires
        forall|i: int| 0 <= i < v@.len() ==> v@[i] < 128,
    ensures
        r@.len() == v@.len(),
        forall|i: int| 0 <= i < v@.len() ==> r@[i] == (#[trigger] v@[i]) as char,
{
    String::from_utf8(v).expect("ASCII bytes are valid UTF-8")
}

/// What lower-casing a string returns.  The result depends on the
/// characters alone; it is pinned down only by the trusted call below.
pub uninterp spec fn lower_of(s: Seq<char>) -> Seq<char>;

/// Relies on `str::to_lowercase` (std): the result is a function of the
/// characters alone, and an empty string stays empty.
#[verifier::external_body]
pub(crate) fn to_lowercase(s: &str) -> (r: String)
    ensures
        r@ == lower_of(s@),
        s@.len() == 0 ==> r@.len() == 0,
{
    s.to_lowercase()
}

/// The characters of a string, as an indexable vector.
pub fn str_chars(s: &str) -> (r: Vec<char>)
    ensures
        r@ == s@,
{
    broadcast use vstd::string::next_postcondition, vstd::string::axiom_spec_iter;

    let mut it = s.chars();
    let mut r: Vec<char> = Vec::new();
    loop
        invariant
            vstd::std_specs::iter::IteratorSpec::obeys_prophetic_iter_laws(&it),
            vstd::std_specs::iter::IteratorSpec::decrease(&it) is Some,
            r@ + vstd::std_specs::iter::IteratorSpec::remaining(&it) == s@,
        ensures
            r@ == s@,
        decreases vstd::std_specs::iter::IteratorSpec::decrease(&it)->0,
    {
        let ghost pre = vstd::std_specs::iter::IteratorSpec::remaining(&it);
        match it.next() {
            Some(c) => {
                proof {
                    assert(c == pre[0]);
                }
                r.push(c);
                proof {
                    assert(r@ + vstd::std_specs::iter::IteratorSpec::remaining(&it) =~= s@);
                }
            },
            None => {
                proof {
                    assert(pre.len() == 0);
                    assert(r@ =~= s@);
                }
                break ;
            },
        }
    }
    r
}

/// Whether `needle` occurs as a contiguous run inside `hay`.
pub open spec fn spec_contains(hay: Seq<char>, needle: Seq<char>) -> bool {
    exists|i: int|
        0 <= i && i + needle.len() <= hay.len() && #[trigger] hay.subrange(i, i + needle.len())
            == needle
}

/// Whether `needle` occurs at position `i` of `hay`.
fn matches_at(hay: &Vec<char>, needle: &Vec<char>, i: usize) -> (r: bool)
    requires
        i + needle@.len() <= hay@.len(),
    ensures
        r == (hay@.subrange(i as int, i + needle@.len()) == needle@),
{
    let hn = hay.len();
    let mut j: usize = 0;
    while j < needle.len()
        invariant
            j <= needle@.len(),
            hn == hay@.len(),
            i + needle@.len() <= hay@.len(),
            forall|k: int| 0 <= k < j ==> hay@[i + k] == needle@[k],
        decreases needle@.len() - j,
    {
        if hay[i + j] != needle[j] {
            proof {
                assert(hay@.subrange(i as int, i + needle@.len())[j as int] != needle@[j as int]);
            }
            return false;
        }
        j = j + 1;
    }
    proof {
        assert(hay@.subrange(i as int, i + needle@.len()) =~= needle@);
    }
    true
}

/// Substring search over character vectors.
pub fn contains_chars(hay: &Vec<char>, needle: &Vec<char>) -> (r: bool)
    ensures
        r == spec_contains(hay@, needle@),
{
    if needle.len() > hay.len() {
        proof {
            assert(!spec_contains(hay@, needle@));
        }
        return false;
    }
    if needle.len() == 0 {
        proof {
            assert(hay@.subrange(0, 0 + needle@.len() as int) =~= needle@);
            assert(spec_contains(hay@, needle@));
        }
        return true;
    }
    let mut i: usize = 0;
    let hn = hay.len();
    let last = hn - needle.len();
    while i <= last
        invariant
            i <= last + 1,
            hn == hay@.len(),
            last == hay@.len() - needle@.len(),
            1 <= needle@.len() <= hay@.len(),
            forall|k: int|
                0 <= k < i ==> #[trigger] hay@.subrange(k, k + needle@.len()) != needle@,
        decreases last + 1 - i,
    {
        if matches_at(hay, needle, i) {
            return true;
        }
        i = i + 1;
    }
    proof {
        assert forall|k: int|
            0 <= k && k + needle@.len() <= hay@.len() implies #[trigger] hay@.subrange(
                k,
                k + needle@.len(),
            ) != needle@ by {
            assert(k < i);
        }
    }
    false
}

/// Whether one string contains another, both taken lower-case.
pub fn contains_lower(hay: &str, needle_lower: &Vec<char>) -> (r: bool)
    ensures
        r == spec_contains(lower_of(hay@), needle_lower@),
{
    let h = to_lowercase(hay);
    let hc = str_chars(h.as_str());
    contains_chars(&hc, needle_lower)
}

/// The decimal digits of a number, most significant first, without leading
/// zeros, as bytes of ASCII text.
pub open spec fn spec_dec_bytes(x: u64) -> Seq<u8>
    decreases x,
{
    if x < 10 {
        seq![(48 + (x % 10)) as u8]
    } else {
        spec_dec_bytes(x / 10).push((48 + (x % 10)) as u8)
    }
}

/// The decimal digits of a number, as characters.
pub open spec fn spec_dec_chars(x: u64) -> Seq<char> {
    spec_dec_bytes(x).map_values(|b: u8| b as char)
}

/// Appends the decimal digits of `x`.
fn push_dec(x: u64, out: &mut Vec<u8>)
    ensures
        final(out)@ == old(out)@ + spec_dec_bytes(x),
    decreases x,
{
    if x < 10 {
        out.push(48 + (x % 10) as u8);
        proof {
            assert(out@ =~= old(out)@ + spec_dec_bytes(x));
        }
    } else {
        push_dec(x / 10, out);
        out.push(48 + (x % 10) as u8);
        proof {
            assert(out@ =~= old(out)@ + spec_dec_bytes(x));
        }
    }
}

/// Every decimal digit byte is printable ASCII.
proof fn lemma_dec_bytes_ascii(x: u64)
    ensures
        spec_dec_bytes(x).len() >= 1,
        forall|i: int| 0 <= i < spec_dec_bytes(x).len() ==> #[trigger] spec_dec_bytes(x)[i] < 128,
    decreases x,
{
    if x < 10 {
    } else {
        lemma_dec_bytes_ascii(x / 10);
    }
}

/// The decimal form of a number.
pub fn u64_to_string(x: u64) -> (r: String)
    ensures
        r@ == spec_dec_chars(x),
        r@.len() >= 1,
{
    let mut bytes: Vec<u8> = Vec::new();
    push_dec(x, &mut bytes);
    proof {
        lemma_dec_bytes_ascii(x);
        assert(bytes@ =~= spec_dec_bytes(x));
    }
    let s = ascii_bytes_to_string(bytes);
    proof {
        assert(s@ =~= spec_dec_chars(x));
    }
    s
}

/// Whether a character is a decimal digit.
pub open spec fn spec_is_digit(c: char) -> bool {
    48 <= c as u32 <= 57
}

/// The value of one digit character.
pub open spec fn spec_digit_val(c: char) -> int {
    c as u32 - 48
}

/// The value of a digit string, most significant first.
pub open spec fn spec_digits_val(s: Seq<char>) -> int
    decreases s.len(),
{
    if s.len() == 0 {
        0
    } else {
        spec_digits_val(s.drop_last()) * 10 + spec_digit_val(s.last())
    }
}

/// The digits of a string to parse: everything after an optional leading
/// plus sign.
pub open spec fn spec_parse_body(s: Seq<char>) -> Seq<char> {
    if s.len() > 0 && s[0] as u32 == 43 {
        s.drop_first()
    } else {
        s
    }
}

/// What parsing a string as an unsigned machine word yields: an optional
/// leading plus sign, then at least one digit, and a value that fits.
pub open spec fn spec_parse_usize(s: Seq<char>) -> Option<usize> {
    let body = spec_parse_body(s);
    if body.len() == 0 {
        None
    } else if !(forall|i: int| 0 <= i < body.len() ==> spec_is_digit(#[trigger] body[i])) {
        None
    } else if spec_digits_val(body) > usize::MAX {
        None
    } else {
        Some(spec_digits_val(body) as usize)
    }
}

/// Digit strings only grow in value as digits are appended.
proof fn lemma_digits_val_monotone(s: Seq<char>, i: int)
    requires
        0 <= i <= s.len(),
        forall|j: int| 0 <= j < s.len() ==> spec_is_digit(#[trigger] s[j]),
    ensures
        spec_digits_val(s.take(i)) <= spec_digits_val(s),
        spec_digits_val(s) >= 0,
    decreases s.len(),
{
    if s.len() == 0 {
    } else {
        assert(forall|j: int|
            0 <= j < s.drop_last().len() ==> spec_is_digit(#[trigger] s.drop_last()[j]));
        lemma_digits_val_monotone(s.drop_last(), if i <= s.len() - 1 {
            i
        } else {
            s.len() - 1
        });
        if i <= s.len() - 1 {
            assert(s.take(i) =~= s.drop_last().take(i));
        } else {
            assert(s.take(i) =~= s);
        }
        assert(spec_digit_val(s.last()) >= 0);
    }
}

/// Parses a string as an unsigned machine word, exactly as the standard
/// parser does: an optional leading plus, digits, and a bounds check.
#[verifier::rlimit(50)]
pub fn parse_usize(s: &Vec<char>) -> (r: Option<usize>)
    ensures
        r == spec_parse_usize(s@),
{
    let mut start: usize = 0;
    if s.len() > 0 && s[0] as u32 == 43 {
        start = 1;
    }
    let ghost body = spec_parse_body(s@);
    proof {
        assert(body =~= s@.subrange(start as int, s@.len() as int));
    }
    if s.len() == start {
        return None;
    }
    let mut acc: usize = 0;
    let mut i: usize = start;
    while i < s.len()
        invariant
            start <= i <= s@.len(),
            start <= 1,
            body == spec_parse_body(s@),
            body == s@.subrange(start as int, s@.len() as int),
            body.len() > 0,
            forall|j: int| start <= j < i ==> spec_is_digit(#[trigger] s@[j]),
            acc == spec_digits_val(body.take(i - start)),
        decreases s@.len() - i,
    {
        let c = s[i];
        let cv = c as u32;
        if cv < 48 || cv > 57 {
            proof {
                assert(!spec_is_digit(body[i - start]));
            }
            return None;
        }
        let d = (cv - 48) as usize;
        proof {
            assert(body.take(i + 1 - start).drop_last() =~= body.take(i - start));
            assert(body.take(i + 1 - start).last() == s@[i as int]);
        }
        if acc > (usize::MAX - d) / 10 {
            proof {
                assert(acc * 10 + d > usize::MAX) by (nonlinear_arith)
                    requires
                        acc > (usize::MAX - d) / 10,
                        d <= 9,
                ;
                assert(spec_digits_val(body.take(i + 1 - start)) > usize::MAX);
                if forall|j: int| 0 <= j < body.len() ==> spec_is_digit(#[trigger] body[j]) {
                    lemma_digits_val_monotone(body, i + 1 - start);
                    assert(spec_digits_val(body) > usize::MAX);
                }
            }
            return None;
        }
        proof {
            assert(acc * 10 + d <= usize::MAX) by (nonlinear_arith)
                requires
                    acc <= (usize::MAX - d) / 10,
                    d <= 9,
            ;
        }
        acc = acc * 10 + d;
        i = i + 1;
    }
    proof {
        assert(body.take(s@.len() - start) =~= body);
        assert(forall|j: int| 0 <= j < body.len() ==> spec_is_digit(#[trigger] body[j]));
        lemma_digits_val_monotone(body, body.len() as int);
    }
    Some(acc)
}

/// Whether a character is ASCII whitespace: space, tab, line feed,
/// carriage return.
pub open spec fn spec_is_ws(c: char) -> bool {
    c == ' ' || c == '\t' || c == '\n' || c == '\r'
}

/// A string with leading and trailing ASCII whitespace removed.
pub open spec fn spec_trim(s: Seq<char>) -> Seq<char> {
    spec_trim_back(spec_trim_front(s))
}

/// A string with leading ASCII whitespace removed.
pub open spec fn spec_trim_front(s: Seq<char>) -> Seq<char>
    decreases s.len(),
{
    if s.len() > 0 && spec_is_ws(s[0]) {
        spec_trim_front(s.drop_first())
    } else {
        s
    }
}

/// A string with trailing ASCII whitespace removed.
pub open spec fn spec_trim_back(s: Seq<char>) -> Seq<char>
    decreases s.len(),
{
    if s.len() > 0 && spec_is_ws(s.last()) {
        spec_trim_back(s.drop_last())
    } else {
        s
    }
}

/// A whitespace prefix falls away under front trimming.
proof fn lemma_trim_front_skip(s: Seq<char>, i: int)
    requires
        0 <= i <= s.len(),
        forall|j: int| 0 <= j < i ==> spec_is_ws(#[trigger] s[j]),
        i < s.len() ==> !spec_is_ws(s[i]),
    ensures
        spec_trim_front(s) == s.skip(i),
    decreases i,
{
    if i == 0 {
        if s.len() > 0 {
            assert(!spec_is_ws(s[0]));
        }
        assert(s.skip(0) =~= s);
    } else {
        assert(spec_is_ws(s[0]));
        assert(s.drop_first() =~= s.skip(1));
        lemma_trim_front_skip(s.drop_first(), i - 1);
        assert(s.drop_first().skip(i - 1) =~= s.skip(i));
    }
}

/// A whitespace suffix falls away under back trimming.
proof fn lemma_trim_back_take(s: Seq<char>, i: int)
    requires
        0 <= i <= s.len(),
        forall|j: int| i <= j < s.len() ==> spec_is_ws(#[trigger] s[j]),
        i > 0 ==> !spec_is_ws(s[i - 1]),
    ensures
        spec_trim_back(s) == s.take(i),
    decreases s.len() - i,
{
    if i == s.len() {
        if s.len() > 0 {
            assert(!spec_is_ws(s.last()));
        }
        assert(s.take(s.len() as int) =~= s);
    } else {
        assert(spec_is_ws(s.last()));
        assert(s.drop_last() =~= s.take(s.len() - 1));
        lemma_trim_back_take(s.take(s.len() - 1), i);
        assert(s.take(s.len() - 1).take(i) =~= s.take(i));
    }
}

/// A string with leading and trailing ASCII whitespace removed.
pub fn trim_str<'a>(s: &'a str) -> (r: &'a str)
    ensures
        r@ == spec_trim(s@),
{
    let n = s.unicode_len();
    let mut start: usize = 0;
    while start < n && is_ws_char(s.get_char(start))
        invariant
            n == s@.len(),
            start <= n,
            forall|j: int| 0 <= j < start ==> spec_is_ws(#[trigger] s@[j]),
        decreases n - start,
    {
        start = start + 1;
    }
    proof {
        lemma_trim_front_skip(s@, start as int);
    }
    let ghost front = s@.skip(start as int);
    let mut end: usize = n;
    while end > start && is_ws_char(s.get_char(end - 1))
        invariant
            n == s@.len(),
            start <= end <= n,
            front == s@.skip(start as int),
            forall|j: int| end <= j < n ==> spec_is_ws(#[trigger] s@[j]),
        decreases end,
    {
        end = end - 1;
    }
    proof {
        assert forall|j: int| (end - start) <= j < front.len() implies spec_is_ws(
            #[trigger] front[j],
        ) by {
            assert(front[j] == s@[start + j]);
        }
        if end > start {
            assert(front[end - start - 1] == s@[end - 1]);
        }
        lemma_trim_back_take(front, end - start);
    }
    let r = s.substring_char(start, end);
    proof {
        assert(r@ =~= front.take(end - start));
    }
    r
}

/// Whether a character is ASCII whitespace.
fn is_ws_char(c: char) -> (r: bool)
    ensures
        r == spec_is_ws(c),
{
    c == ' ' || c == '\t' || c == '\n' || c == '\r'
}

} // verus!
