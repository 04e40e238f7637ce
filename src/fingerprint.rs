use vstd::prelude::*;
use crate::lang::Lang;

verus! {

broadcast use vstd::string::group_string_axioms;

/// The MD5 digest of the UTF-8 encoding of a text.
pub uninterp spec fn md5_digest(s: Seq<char>) -> Seq<u8>;

/// Relies on `md5::compute`: the 16-byte MD5 digest of the bytes it is given,
/// here the UTF-8 bytes of `s`.
#[verifier::external_body]
pub(crate) fn md5_utf8(s: &str) -> (r: [u8; 16])
    ensures
        r@ == md5_digest(s@),
{
    md5::compute(s.as_bytes()).0
}

/// Relies on `String::push`: appends one character.
#[verifier::external_body]
pub(crate) fn push_char(s: &mut String, c: char)
    ensures
        final(s)@ == old(s)@.push(c),
{
    s.push(c)
}

/// The lowercase hexadecimal digit of a value below sixteen.
pub open spec fn hex_digit(n: u8) -> char {
    if n < 10 {
        (n + 48) as u8 as char
    } else {
        (n + 87) as u8 as char
    }
}

/// Two lowercase hexadecimal digits per byte, high nibble first.
pub open spec fn hex_of(b: Seq<u8>) -> Seq<char>
    decreases b.len(),
{
    if b.len() == 0 {
        Seq::empty()
    } else {
        hex_of(b.drop_last()).push(hex_digit(b.last() / 16)).push(hex_digit(b.last() % 16))
    }
}

/// The tuple a key is derived from, joined by `|`.
pub open spec fn joined(
    provider: Seq<char>,
    source: Seq<char>,
    target: Seq<char>,
    text: Seq<char>,
) -> Seq<char> {
    provider + seq!['|'] + source + seq!['|'] + target + seq!['|'] + text
}

/// The cache key of a tuple: the hex MD5 digest of the joined tuple.
pub open spec fn fingerprint(
    provider: Seq<char>,
    source: Seq<char>,
    target: Seq<char>,
    text: Seq<char>,
) -> Seq<char> {
    hex_of(md5_digest(joined(provider, source, target, text)))
}

fn hex_char(n: u8) -> (r: char)
    requires
        n < 16,
    ensures
        r == hex_digit(n),
{
    if n < 10 {
        (n + 48) as char
    } else {
        (n + 87) as char
    }
}

pub fn to_hex(b: &[u8]) -> (r: String)
    ensures
        r@ == hex_of(b@),
{
    let mut out = String::new();
    let mut i: usize = 0;
    while i < b.len()
        invariant
            i <= b@.len(),
            out@ == hex_of(b@.subrange(0, i as int)),
        decreases b@.len() - i,
    {
        let x = b[i];
        push_char(&mut out, hex_char(x / 16));
        push_char(&mut out, hex_char(x % 16));
        assert(b@.subrange(0, i + 1).drop_last() =~= b@.subrange(0, i as int));
        i = i + 1;
    }
    assert(b@.subrange(0, b@.len() as int) =~= b@);
    out
}

/// Derives the cache key of `(provider, source, target, text)`.
pub fn cache_key(provider: &str, source: &str, target: &str, text: &str) -> (r: String)
    ensures
        r@ == fingerprint(provider@, source@, target@, text@),
{
    let mut value = String::from_str(provider);
    value.append("|");
    value.append(source);
    value.append("|");
    value.append(target);
    value.append("|");
    value.append(text);
    proof {
        reveal_strlit("|");
        assert(value@ =~= joined(provider@, source@, target@, text@));
    }
    let digest = md5_utf8(value.as_str());
    to_hex(&digest)
}

pub open spec fn has_no_bar(s: Seq<char>) -> bool {
    forall|i: int| 0 <= i < s.len() ==> s[i] != '|'
}

/// The key is a function of its tuple, and the string it digests determines
/// the tuple: two tuples whose provider names hold no `|` join to the same
/// string only when provider, source, target and text are all the same. Two
/// different tuples therefore get different keys unless their MD5 digests
/// collide.
pub proof fn lemma_key_input_injective(
    pa: Seq<char>,
    sa: Lang,
    ta: Lang,
    xa: Seq<char>,
    pb: Seq<char>,
    sb: Lang,
    tb: Lang,
    xb: Seq<char>,
)
    requires
        has_no_bar(pa),
        has_no_bar(pb),
    ensures
        (pa == pb && sa == sb && ta == tb && xa == xb) ==> fingerprint(
            pa,
            sa.tag(),
            ta.tag(),
            xa,
        ) == fingerprint(pb, sb.tag(), tb.tag(), xb),
        joined(pa, sa.tag(), ta.tag(), xa) == joined(pb, sb.tag(), tb.tag(), xb) ==> (pa == pb
            && sa == sb && ta == tb && xa == xb),
{
    let ja = joined(pa, sa.tag(), ta.tag(), xa);
    let jb = joined(pb, sb.tag(), tb.tag(), xb);
    if ja == jb {
        let na = pa.len() as int;
        let nb = pb.len() as int;
        if na < nb {
            assert(ja[na] == '|');
            assert(jb[na] == pb[na]);
        }
        if nb < na {
            assert(jb[nb] == '|');
            assert(ja[nb] == pa[nb]);
        }
        assert(na == nb);
        assert(pa =~= ja.subrange(0, na));
        assert(pb =~= jb.subrange(0, na));
        assert(sa.tag() =~= ja.subrange(na + 1, na + 3));
        assert(sb.tag() =~= jb.subrange(na + 1, na + 3));
        assert(ta.tag() =~= ja.subrange(na + 4, na + 6));
        assert(tb.tag() =~= jb.subrange(na + 4, na + 6));
        assert(xa =~= ja.subrange(na + 7, ja.len() as int));
        assert(xb =~= jb.subrange(na + 7, jb.len() as int));
        assert(sa.tag() == sb.tag());
        assert(ta.tag() == tb.tag());
        assert(sa == sb) by {
            if sa != sb {
                assert(sa.tag()[0] != sb.tag()[0]);
            }
        }
        assert(ta == tb) by {
            if ta != tb {
                assert(ta.tag()[0] != tb.tag()[0]);
            }
        }
    }
}

} // verus!
