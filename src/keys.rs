//! The text keys under which the registry's entries stand in the host's
//! dictionary: `"len"` for the count, the decimal index for each index
//! entry, and the lowercase hexadecimal package hash for each status entry.
//! Entries of different kinds, and different entries of one kind, never
//! share a key.
use crate::provider::ProviderId;
use vstd::prelude::*;
use vstd::string::StringExecFns;

verus! {

/// The digit for `d` in `0..16`, lowercase.
pub open spec fn digit(d: int) -> char {
    seq!['0', '1', '2', '3', '4', '5', '6', '7', '8', '9', 'a', 'b', 'c', 'd', 'e', 'f'][d]
}

/// `n` in decimal, without leading zeros.
pub open spec fn decimal(n: nat) -> Seq<char>
    decreases n,
{
    if n < 10 {
        seq![digit(n as int)]
    } else {
        decimal(n / 10).push(digit((n % 10) as int))
    }
}

/// The bytes `b` in lowercase hexadecimal, two digits per byte, high
/// digit first.
pub open spec fn hex_lower(b: Seq<u8>) -> Seq<char>
    decreases b.len(),
{
    if b.len() == 0 {
        Seq::empty()
    } else {
        hex_lower(b.drop_last()) + seq![digit(b.last() as int / 16), digit(b.last() as int % 16)]
    }
}

/// Relies on casper_types' `Display` for `ContractPackageHash`, which writes
/// the hash's bytes with `base16::encode_lower`.
#[verifier::external_body]
fn package_hash_text(p: &ProviderId) -> (r: String)
    ensures
        r@ == hex_lower(p@),
{
    casper_types::ContractPackageHash::new(p.hash).to_string()
}

/// The key of the count entry.
pub fn len_key() -> (r: String)
    ensures
        r@ == seq!['l', 'e', 'n'],
{
    proof {
        reveal_strlit("len");
    }
    String::from_str("len")
}

fn digit_text(d: u64) -> (r: &'static str)
    requires
        d < 10,
    ensures
        r@ == seq![digit(d as int)],
{
    proof {
        reveal_strlit("0");
        reveal_strlit("1");
        reveal_strlit("2");
        reveal_strlit("3");
        reveal_strlit("4");
        reveal_strlit("5");
        reveal_strlit("6");
        reveal_strlit("7");
        reveal_strlit("8");
        reveal_strlit("9");
    }
    let r = if d == 0 {
        "0"
    } else if d == 1 {
        "1"
    } else if d == 2 {
        "2"
    } else if d == 3 {
        "3"
    } else if d == 4 {
        "4"
    } else if d == 5 {
        "5"
    } else if d == 6 {
        "6"
    } else if d == 7 {
        "7"
    } else if d == 8 {
        "8"
    } else {
        "9"
    };
    assert(r@ =~= seq![digit(d as int)]);
    r
}

/// The key of the index entry `i`.
pub fn index_key(i: u64) -> (r: String)
    ensures
        r@ == decimal(i as nat),
    decreases i,
{
    let d = digit_text(i % 10);
    if i < 10 {
        String::from_str(d)
    } else {
        let mut s = index_key(i / 10);
        s.append(d);
        assert(s@ =~= decimal(i as nat));
        s
    }
}

/// The key of the status entry of `p`.
pub fn status_key(p: &ProviderId) -> (r: String)
    ensures
        r@ == hex_lower(p@),
{
    package_hash_text(p)
}

proof fn lemma_decimal_len(n: nat)
    ensures
        1 <= decimal(n).len(),
        forall|j: int| 0 <= j < decimal(n).len() ==> #[trigger] decimal(n)[j] != 'l',
    decreases n,
{
    if n >= 10 {
        lemma_decimal_len(n / 10);
        assert forall|j: int| 0 <= j < decimal(n).len() implies #[trigger] decimal(n)[j] != 'l' by {
            if j < decimal(n / 10).len() {
                assert(decimal(n)[j] == decimal(n / 10)[j]);
            }
        }
    }
}

/// `10` to the power `k`.
pub open spec fn ten_pow(k: nat) -> nat
    decreases k,
{
    if k == 0 {
        1
    } else {
        10 * ten_pow((k - 1) as nat)
    }
}

proof fn lemma_decimal_len_bound(n: nat, k: nat)
    requires
        1 <= k,
        n < ten_pow(k),
    ensures
        decimal(n).len() <= k,
    decreases k,
{
    if n >= 10 {
        let t = ten_pow((k - 1) as nat);
        if k == 1 {
            assert(ten_pow(1) == 10 * ten_pow(0));
        }
        assert(n / 10 < t) by (nonlinear_arith)
            requires
                n < 10 * t,
        ;
        lemma_decimal_len_bound(n / 10, (k - 1) as nat);
    }
}

proof fn lemma_hex_len(b: Seq<u8>)
    ensures
        hex_lower(b).len() == 2 * b.len(),
    decreases b.len(),
{
    if b.len() > 0 {
        lemma_hex_len(b.drop_last());
    }
}

proof fn lemma_digit_injective(a: int, b: int)
    requires
        0 <= a < 16,
        0 <= b < 16,
        digit(a) == digit(b),
    ensures
        a == b,
{
}

/// Different indices have different keys.
pub proof fn lemma_decimal_injective(a: nat, b: nat)
    requires
        decimal(a) == decimal(b),
    ensures
        a == b,
    decreases a,
{
    lemma_decimal_len(a / 10);
    lemma_decimal_len(b / 10);
    if a < 10 && b < 10 {
        assert(decimal(a) == seq![digit(a as int)]);
        assert(decimal(b) == seq![digit(b as int)]);
        assert(decimal(a)[0] == digit(a as int));
        assert(decimal(b)[0] == digit(b as int));
        lemma_digit_injective(a as int, b as int);
    } else if a >= 10 && b >= 10 {
        let (da, db) = (decimal(a), decimal(b));
        assert(da.last() == digit((a % 10) as int));
        assert(db.last() == digit((b % 10) as int));
        lemma_digit_injective((a % 10) as int, (b % 10) as int);
        assert(decimal(a / 10) =~= da.drop_last());
        assert(decimal(b / 10) =~= db.drop_last());
        lemma_decimal_injective(a / 10, b / 10);
    } else {
        assert(decimal(a).len() != decimal(b).len()) by {
            if a >= 10 {
                assert(decimal(a).len() == decimal(a / 10).len() + 1);
            } else {
                assert(decimal(b).len() == decimal(b / 10).len() + 1);
            }
        }
    }
}

/// Different byte strings of one length have different hexadecimal texts.
pub proof fn lemma_hex_injective(a: Seq<u8>, b: Seq<u8>)
    requires
        a.len() == b.len(),
        hex_lower(a) == hex_lower(b),
    ensures
        a == b,
    decreases a.len(),
{
    if a.len() > 0 {
        let (fa, fb) = (a.drop_last(), b.drop_last());
        lemma_hex_len(fa);
        lemma_hex_len(fb);
        let n = hex_lower(fa).len() as int;
        let (ha, hb) = (hex_lower(a), hex_lower(b));
        assert(ha[n] == digit(a.last() as int / 16) && hb[n] == digit(b.last() as int / 16));
        assert(ha[n + 1] == digit(a.last() as int % 16) && hb[n + 1] == digit(b.last() as int % 16));
        lemma_digit_injective(a.last() as int / 16, b.last() as int / 16);
        lemma_digit_injective(a.last() as int % 16, b.last() as int % 16);
        assert(hex_lower(fa) =~= ha.subrange(0, n));
        assert(hex_lower(fb) =~= hb.subrange(0, n));
        lemma_hex_injective(fa, fb);
        assert(a =~= fa.push(a.last()));
        assert(b =~= fb.push(b.last()));
    }
}

/// Different providers have different status keys.
pub proof fn lemma_status_keys_distinct(p: ProviderId, q: ProviderId)
    requires
        p@ != q@,
    ensures
        hex_lower(p@) != hex_lower(q@),
{
    assert(p@.len() == 32 && q@.len() == 32);
    if hex_lower(p@) == hex_lower(q@) {
        lemma_hex_injective(p@, q@);
    }
}

/// The count key, an index key and a status key are three different
/// texts: entries of different kinds never share a key.
pub proof fn lemma_key_kinds_disjoint(i: u64, p: ProviderId)
    ensures
        decimal(i as nat) != seq!['l', 'e', 'n'],
        decimal(i as nat) != hex_lower(p@),
        hex_lower(p@) != seq!['l', 'e', 'n'],
{
    lemma_decimal_len(i as nat);
    reveal_with_fuel(ten_pow, 21);
    lemma_decimal_len_bound(i as nat, 20);
    lemma_hex_len(p@);
    assert(p@.len() == 32);
    if decimal(i as nat) == seq!['l', 'e', 'n'] {
        assert(decimal(i as nat)[0] == 'l');
    }
}

} // verus!
