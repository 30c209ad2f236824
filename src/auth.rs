use vstd::prelude::*;
use sha2::Digest;

verus! {

/// The SHA-256 digest of `data`.
pub uninterp spec fn sha256_of(data: Seq<u8>) -> Seq<u8>;

/// Relies on `sha2::Sha256::digest`: the 32-byte SHA-256 digest of `data`,
/// which depends on `data` alone.
#[verifier::external_body]
fn sha256(data: &[u8]) -> (r: [u8; 32])
    ensures
        r@ == sha256_of(data@),
{
    let d = sha2::Sha256::digest(data);
    let mut out = [0u8; 32];
    out.copy_from_slice(d.as_slice());
    out
}

/// The digest that both ends derive from the shared token.
pub fn token_digest(token: &[u8]) -> (r: [u8; 32])
    ensures
        r@ == sha256_of(token@),
{
    sha256(token)
}

/// Compares two digests in time that does not depend on where they differ.
pub fn digest_eq(a: &[u8; 32], b: &[u8; 32]) -> (r: bool)
    ensures
        r == (a@ == b@),
{
    let mut diff: u8 = 0;
    let mut i: usize = 0;
    assert(a@.subrange(0, 0) =~= b@.subrange(0, 0));
    while i < 32
        invariant
            i <= 32,
            a@.len() == 32,
            b@.len() == 32,
            (diff == 0) == (a@.subrange(0, i as int) == b@.subrange(0, i as int)),
        decreases 32 - i,
    {
        let x = a[i];
        let y = b[i];
        let d = diff | (x ^ y);
        assert((d == 0) == (diff == 0 && x == y)) by (bit_vector)
            requires
                d == diff | (x ^ y),
        ;
        proof {
            let sa = a@.subrange(0, i as int);
            let sb = b@.subrange(0, i as int);
            assert(a@.subrange(0, i + 1) =~= sa.push(x));
            assert(b@.subrange(0, i + 1) =~= sb.push(y));
            if sa.push(x) == sb.push(y) {
                assert(sa =~= sa.push(x).drop_last());
                assert(sb =~= sb.push(y).drop_last());
                assert(sa.push(x)[i as int] == x);
                assert(sb.push(y)[i as int] == y);
            }
        }
        diff = d;
        i = i + 1;
    }
    assert(a@.subrange(0, 32) =~= a@);
    assert(b@.subrange(0, 32) =~= b@);
    diff == 0
}

} // verus!
