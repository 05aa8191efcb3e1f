//! The hash by which a change of a file's content is seen.

use sha2::Digest;
use vstd::prelude::*;
use vstd::string::*;

verus! {

/// The SHA-256 digest of a sequence of bytes.
pub uninterp spec fn sha256(bytes: Seq<u8>) -> Seq<u8>;

/// The digest that `sha2::Sha256` gives after it was fed the bytes: the SHA-256 of the
/// bytes, thirty-two bytes long.
#[verifier::external_body]
fn sha256_digest(bytes: &[u8]) -> (r: Vec<u8>)
    ensures
        r@ == sha256(bytes@),
        r@.len() == 32,
{
    let mut hasher = sha2::Sha256::new();
    hasher.update(bytes);
    hasher.finalize().to_vec()
}

/// The lower-case hexadecimal digit of a number below sixteen.
pub open spec fn hex_char(n: nat) -> char {
    if n < 10 {
        (48 + n) as char
    } else {
        (87 + n) as char
    }
}

/// Bytes in hexadecimal, two digits for each.
pub open spec fn hex_text(bytes: Seq<u8>) -> Seq<char>
    decreases bytes.len(),
{
    if bytes.len() == 0 {
        Seq::empty()
    } else {
        hex_text(bytes.drop_last()) + seq![
            hex_char(bytes.last() as nat / 16),
            hex_char(bytes.last() as nat % 16),
        ]
    }
}

/// How a digest is written where the index keeps it.
pub open spec fn digest_text(digest: Seq<u8>) -> Seq<char> {
    "sha256:"@ + hex_text(digest)
}

/// The hash of a content as the index keeps it.
pub open spec fn content_hash_of(content: Seq<char>) -> Seq<char> {
    digest_text(sha256(vstd::utf8::encode_utf8(content)))
}

fn hex_digit_of(n: u8) -> (r: char)
    requires
        n < 16,
    ensures
        r == hex_char(n as nat),
{
    if n < 10 {
        (48 + n) as char
    } else {
        (87 + n) as char
    }
}

/// How a digest is written where the index keeps it.
pub fn written_digest(digest: &Vec<u8>) -> (r: String)
    ensures
        r@ == digest_text(digest@),
{
    let mut out = "sha256:".to_owned();
    let n: usize = digest.len();
    let mut i: usize = 0;
    assert(out@ =~= "sha256:"@ + hex_text(digest@.take(0)));
    while i < n
        invariant
            n == digest@.len(),
            i <= n,
            out@ == "sha256:"@ + hex_text(digest@.take(i as int)),
        decreases n - i,
    {
        let b: u8 = digest[i];
        out.push(hex_digit_of(b / 16));
        out.push(hex_digit_of(b % 16));
        proof {
            let now = digest@.take(i + 1);
            assert(now.drop_last() =~= digest@.take(i as int));
            assert(now.last() == b);
            assert(out@ =~= "sha256:"@ + hex_text(now));
        }
        i = i + 1;
    }
    assert(digest@.take(n as int) =~= digest@);
    out
}

/// The hash of a content as the index keeps it: that of all its bytes, in hexadecimal.
pub fn content_hash(content: &str) -> (r: String)
    ensures
        r@ == content_hash_of(content@),
        r@ == "sha256:"@ + hex_text(sha256(vstd::utf8::encode_utf8(content@))),
{
    let digest = sha256_digest(content.as_bytes());
    written_digest(&digest)
}

spec fn shows_byte(s: Seq<char>, i: int, b: u8) -> bool {
    s[2 * i] == hex_char(b as nat / 16) && s[2 * i + 1] == hex_char(b as nat % 16)
}

proof fn lemma_hex_text(bytes: Seq<u8>)
    ensures
        hex_text(bytes).len() == 2 * bytes.len(),
        forall|i: int|
            0 <= i < bytes.len() ==> shows_byte(hex_text(bytes), i, #[trigger] bytes[i]),
    decreases bytes.len(),
{
    if bytes.len() > 0 {
        let fewer = bytes.drop_last();
        lemma_hex_text(fewer);
        assert forall|i: int| 0 <= i < bytes.len() implies shows_byte(
            hex_text(bytes),
            i,
            #[trigger] bytes[i],
        ) by {
            if i < fewer.len() {
                assert(shows_byte(hex_text(fewer), i, fewer[i]));
            }
        }
    }
}

/// Two digests that are written alike are equal.
pub proof fn law_written_digests_tell_apart(a: Seq<u8>, b: Seq<u8>)
    requires
        digest_text(a) == digest_text(b),
    ensures
        a == b,
{
    let head = "sha256:"@;
    lemma_hex_text(a);
    lemma_hex_text(b);
    assert(digest_text(a).skip(head.len() as int) =~= hex_text(a));
    assert(digest_text(b).skip(head.len() as int) =~= hex_text(b));
    assert forall|i: int| 0 <= i < a.len() implies a[i] == b[i] by {
        assert(shows_byte(hex_text(a), i, a[i]));
        assert(shows_byte(hex_text(b), i, b[i]));
    }
    assert(a =~= b);
}

/// Two contents have the same hash exactly where the SHA-256 digests of their whole
/// encodings are equal: no part of a content is left out, and nothing but the content
/// counts.
pub proof fn law_hash_covers_the_whole_content(a: Seq<char>, b: Seq<char>)
    ensures
        content_hash_of(a) == content_hash_of(b) <==> sha256(vstd::utf8::encode_utf8(a)) == sha256(
            vstd::utf8::encode_utf8(b),
        ),
{
    if content_hash_of(a) == content_hash_of(b) {
        law_written_digests_tell_apart(
            sha256(vstd::utf8::encode_utf8(a)),
            sha256(vstd::utf8::encode_utf8(b)),
        );
    }
}

/// The value of a lower-case hexadecimal digit.
pub open spec fn hex_value(c: char) -> int {
    if '0' <= c <= '9' {
        c as int - '0' as int
    } else {
        c as int - 'a' as int + 10
    }
}

/// A digest is written as the name of the hash and two lower-case hexadecimal digits for
/// each byte, from which the byte can be read again.
pub proof fn law_digest_is_written_byte_by_byte(digest: Seq<u8>, i: int)
    requires
        0 <= i < digest.len(),
    ensures
        ({
            let s = digest_text(digest);
            let high = s[7 + 2 * i];
            let low = s[8 + 2 * i];
            &&& s.len() == 7 + 2 * digest.len()
            &&& s.take(7) == seq!['s', 'h', 'a', '2', '5', '6', ':']
            &&& '0' <= high <= '9' || 'a' <= high <= 'f'
            &&& '0' <= low <= '9' || 'a' <= low <= 'f'
            &&& digest[i] == 16 * hex_value(high) + hex_value(low)
        }),
{
    reveal_strlit("sha256:");
    lemma_hex_text(digest);
    let s = digest_text(digest);
    assert(shows_byte(hex_text(digest), i, digest[i]));
    assert(s[7 + 2 * i] == hex_text(digest)[2 * i]);
    assert(s[8 + 2 * i] == hex_text(digest)[2 * i + 1]);
    assert(s.take(7) =~= seq!['s', 'h', 'a', '2', '5', '6', ':']);
}

} // verus!
