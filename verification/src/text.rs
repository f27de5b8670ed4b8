//! Small operations on text that the rest of the library shares: comparing,
//! trimming, folding case and padding.

use crate::names::name_eq;
use vstd::prelude::*;
use vstd::string::{StrSliceExecFns, StringExecFns, StringSliceAdditionalSpecFns};
use vstd::utf8::{decode_utf8, encode_utf8_decode_utf8, valid_utf8};

verus! {

/// The lower-case form of a text in the sense of `str::to_lowercase`.
pub uninterp spec fn lowercase_of(s: Seq<char>) -> Seq<char>;

/// The text that `String::from_utf8_lossy` reads out of `bytes`.
pub uninterp spec fn lossy_text(bytes: Seq<u8>) -> Seq<char>;

/// Calls `std::str::from_utf8`, which takes bytes for text where they are
/// valid UTF-8 and refuses them where not. The contract says so: the answer
/// is the decoded text, and there is one exactly for valid bytes.
#[verifier::external_body]
pub(crate) fn as_text(bytes: &[u8]) -> (text: Option<&str>)
    ensures
        text.is_some() == valid_utf8(bytes@),
        text matches Some(s) ==> s@ == decode_utf8(bytes@),
{
    std::str::from_utf8(bytes).ok()
}

/// Calls `str::to_lowercase`, which folds case by the Unicode tables. The
/// contract only gives the result its name.
#[verifier::external_body]
pub(crate) fn lowercase(s: &str) -> (r: String)
    ensures
        r@ == lowercase_of(s@),
{
    s.to_lowercase()
}

/// Calls `String::from_utf8_lossy`, which decodes UTF-8 and puts a
/// replacement character where the bytes are not valid. The contract gives
/// the result its name and says that valid UTF-8 is read as it stands.
#[verifier::external_body]
pub(crate) fn lossy(bytes: &[u8]) -> (r: String)
    ensures
        r@ == lossy_text(bytes@),
        valid_utf8(bytes@) ==> r@ == decode_utf8(bytes@),
{
    String::from_utf8_lossy(bytes).into_owned()
}

/// Whether `c` is white space: one of the characters that Unicode gives the
/// property White_Space. These are the space, the controls from tab to
/// carriage return, next line, the no-break spaces, the spaces of fixed
/// width, and the line and paragraph separators.
pub open spec fn white_space(c: char) -> bool {
    let code = c as u32;
    ||| 0x09 <= code <= 0x0d
    ||| code == 0x20
    ||| code == 0x85
    ||| code == 0xa0
    ||| code == 0x1680
    ||| 0x2000 <= code <= 0x200a
    ||| code == 0x2028
    ||| code == 0x2029
    ||| code == 0x202f
    ||| code == 0x205f
    ||| code == 0x3000
}

/// How many characters of white space `s` begins with.
pub open spec fn leading_space(s: Seq<char>) -> nat
    decreases s.len(),
{
    if s.len() > 0 && white_space(s.first()) {
        1 + leading_space(s.drop_first())
    } else {
        0
    }
}

/// How many characters of white space `s` ends with.
pub open spec fn trailing_space(s: Seq<char>) -> nat
    decreases s.len(),
{
    if s.len() > 0 && white_space(s.last()) {
        1 + trailing_space(s.drop_last())
    } else {
        0
    }
}

/// `s` without the white space at its two ends.
pub open spec fn trimmed(s: Seq<char>) -> Seq<char> {
    if leading_space(s) >= s.len() {
        Seq::empty()
    } else {
        s.subrange(leading_space(s) as int, s.len() - trailing_space(s))
    }
}

/// A run of `n` spaces.
pub open spec fn spaces(n: nat) -> Seq<char> {
    Seq::new(n, |i: int| ' ')
}

/// How many spaces it takes to bring a text of `len` characters to `width`.
pub open spec fn padding(len: nat, width: nat) -> nat {
    if len < width {
        (width - len) as nat
    } else {
        0
    }
}

/// `text` with spaces after it, so that it is at least `width` characters
/// long. A text that is already that long is left as it is.
pub open spec fn padded_right(text: Seq<char>, width: nat) -> Seq<char> {
    text + spaces(padding(text.len(), width))
}

/// `text` with spaces before it, so that it is at least `width` characters
/// long. A text that is already that long is left as it is.
pub open spec fn padded_left(text: Seq<char>, width: nat) -> Seq<char> {
    spaces(padding(text.len(), width)) + text
}

proof fn lemma_leading_space(s: Seq<char>, a: int)
    requires
        0 <= a <= s.len(),
        forall|k: int| 0 <= k < a ==> white_space(s[k]),
        a == s.len() || !white_space(s[a]),
    ensures
        leading_space(s) == a,
    decreases a,
{
    if a > 0 {
        let rest = s.drop_first();
        assert(white_space(s[0]));
        assert forall|k: int| 0 <= k < a - 1 implies white_space(rest[k]) by {
            assert(rest[k] == s[k + 1]);
        }
        lemma_leading_space(rest, a - 1);
    }
}

proof fn lemma_trailing_space(s: Seq<char>, b: int)
    requires
        0 <= b <= s.len(),
        forall|k: int| b <= k < s.len() ==> white_space(s[k]),
        b == 0 || !white_space(s[b - 1]),
    ensures
        trailing_space(s) == s.len() - b,
    decreases s.len() - b,
{
    if b < s.len() {
        let rest = s.drop_last();
        assert(white_space(s[s.len() - 1]));
        assert forall|k: int| b <= k < rest.len() implies white_space(rest[k]) by {
            assert(rest[k] == s[k]);
        }
        lemma_trailing_space(rest, b);
    }
}

/// Decides whether a character is white space.
pub fn is_white_space(c: char) -> (r: bool)
    ensures
        r == white_space(c),
{
    let code: u32 = c as u32;
    (0x09 <= code && code <= 0x0d) || code == 0x20 || code == 0x85 || code == 0xa0 || code
        == 0x1680 || (0x2000 <= code && code <= 0x200a) || code == 0x2028 || code == 0x2029
        || code == 0x202f || code == 0x205f || code == 0x3000
}

/// Decides whether two texts read the same.
pub fn same_text(a: &str, b: &str) -> (r: bool)
    ensures
        r == (a@ == b@),
{
    proof {
        encode_utf8_decode_utf8(a@);
        encode_utf8_decode_utf8(b@);
    }
    name_eq(a.as_bytes(), b.as_bytes())
}

/// The characters of a text, one by one.
pub fn chars_of(s: &str) -> (v: Vec<char>)
    ensures
        v@ == s@,
{
    let mut v: Vec<char> = Vec::new();
    for c in it: s.chars()
        invariant
            it.seq() == s@,
            v@ == it.seq().take(it.index()),
    {
        v.push(c);
        assert(it.seq().take(it.index() + 1) =~= it.seq().take(it.index()).push(c));
    }
    assert(v@ =~= s@);
    v
}

/// Takes the white space off both ends of `line`.
pub fn trim(line: &str) -> (t: &str)
    ensures
        t@ == trimmed(line@),
{
    let chars = chars_of(line);
    let n = chars.len();
    let mut a: usize = 0;
    while a < n && is_white_space(chars[a])
        invariant
            a <= n,
            n == chars@.len(),
            forall|k: int| 0 <= k < a ==> white_space(chars@[k]),
        decreases n - a,
    {
        a += 1;
    }
    proof {
        lemma_leading_space(chars@, a as int);
    }
    if a == n {
        let t = line.substring_char(n, n);
        assert(t@ =~= Seq::<char>::empty());
        return t;
    }
    let mut b: usize = n;
    while b > a && is_white_space(chars[b - 1])
        invariant
            a < n,
            a <= b <= n,
            n == chars@.len(),
            !white_space(chars@[a as int]),
            forall|k: int| b <= k < n ==> white_space(chars@[k]),
        decreases b,
    {
        b -= 1;
    }
    proof {
        lemma_trailing_space(chars@, b as int);
    }
    line.substring_char(a, b)
}

/// Appends `count` spaces to `text`.
fn push_spaces(text: &mut String, count: usize)
    ensures
        final(text)@ == old(text)@ + spaces(count as nat),
{
    let mut done: usize = 0;
    proof {
        assert(text@ =~= old(text)@ + spaces(0));
    }
    while done < count
        invariant
            done <= count,
            text@ == old(text)@ + spaces(done as nat),
        decreases count - done,
    {
        proof {
            reveal_strlit(" ");
        }
        text.append(" ");
        done += 1;
        proof {
            assert(" "@ =~= seq![' ']);
            assert(text@ =~= old(text)@ + spaces(done as nat));
        }
    }
}

/// Pads `text` with spaces on the right up to `width` characters.
pub fn pad_right(text: &str, width: usize) -> (r: String)
    ensures
        r@ == padded_right(text@, width as nat),
{
    let len = text.unicode_len();
    let mut r = String::from_str(text);
    if len < width {
        push_spaces(&mut r, width - len);
    } else {
        assert(r@ =~= text@ + spaces(0));
    }
    r
}

/// Pads `text` with spaces on the left up to `width` characters.
pub fn pad_left(text: &str, width: usize) -> (r: String)
    ensures
        r@ == padded_left(text@, width as nat),
{
    let len = text.unicode_len();
    let mut r = String::new();
    if len < width {
        push_spaces(&mut r, width - len);
    }
    r.append(text);
    assert(r@ =~= padded_left(text@, width as nat));
    r
}

} // verus!
