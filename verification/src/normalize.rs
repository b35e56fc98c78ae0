//! Identifier normalization.
//!
//! A raw platform identifier (for example `hci0/dev_AA_BB_CC`) is turned
//! into a canonical token: the identifier is lowercased, every occurrence
//! of an adapter prefix (`hci`, optional digits, `/dev_`) is removed, and
//! every remaining underscore is removed.

use vstd::prelude::*;

verus! {

/// ASCII code of `_`.
pub const UNDERSCORE: u8 = 95;

/// Whether `b` is an ASCII uppercase letter.
pub open spec fn is_ascii_upper(b: u8) -> bool {
    65 <= b && b <= 90
}

/// Whether `b` is an ASCII digit.
pub open spec fn is_ascii_digit(b: u8) -> bool {
    48 <= b && b <= 57
}

/// ASCII lowercasing of one byte.
pub open spec fn lower_byte(b: u8) -> u8 {
    if is_ascii_upper(b) {
        (b + 32) as u8
    } else {
        b
    }
}

/// ASCII lowercasing of a byte string.
pub open spec fn lower_bytes(s: Seq<u8>) -> Seq<u8> {
    s.map_values(|b: u8| lower_byte(b))
}

/// Length of the maximal run of ASCII digits at the front of `s`.
pub open spec fn digit_run(s: Seq<u8>) -> nat
    decreases s.len(),
{
    if s.len() > 0 && is_ascii_digit(s[0]) {
        1 + digit_run(s.skip(1))
    } else {
        0
    }
}

/// Whether the five bytes `/dev_` stand at position `i` of `s`.
pub open spec fn dev_tag_at(s: Seq<u8>, i: int) -> bool {
    &&& 0 <= i
    &&& i + 5 <= s.len()
    &&& s[i] == 47
    &&& s[i + 1] == 100
    &&& s[i + 2] == 101
    &&& s[i + 3] == 118
    &&& s[i + 4] == 95
}

/// Length of the adapter prefix at the front of `s`: `hci`, then any run
/// of digits, then `/dev_`. Zero when no such prefix starts `s`.
pub open spec fn adapter_prefix_len(s: Seq<u8>) -> int {
    if s.len() >= 3 && s[0] == 104 && s[1] == 99 && s[2] == 105 && dev_tag_at(
        s,
        3 + digit_run(s.skip(3)) as int,
    ) {
        3 + digit_run(s.skip(3)) as int + 5
    } else {
        0
    }
}

/// Removal pass over an (already lowercased) byte string: every adapter
/// prefix and every underscore is dropped, all other bytes are kept in
/// order.
pub open spec fn strip_artifacts(s: Seq<u8>) -> Seq<u8>
    decreases s.len(),
{
    if s.len() == 0 {
        Seq::empty()
    } else if adapter_prefix_len(s) > 0 {
        strip_artifacts(s.skip(adapter_prefix_len(s)))
    } else if s[0] == UNDERSCORE {
        strip_artifacts(s.skip(1))
    } else {
        seq![s[0]] + strip_artifacts(s.skip(1))
    }
}

/// The canonical form of a raw identifier: lowercase it, then remove
/// adapter prefixes and underscores.
pub open spec fn canonical(s: Seq<u8>) -> Seq<u8> {
    strip_artifacts(lower_bytes(s))
}

/// Lowercases each byte of `raw`.
fn lower_vec(raw: &Vec<u8>) -> (out: Vec<u8>)
    ensures
        out@ == lower_bytes(raw@),
{
    let mut out: Vec<u8> = Vec::new();
    let mut i: usize = 0;
    while i < raw.len()
        invariant
            i <= raw.len(),
            out@.len() == i,
            forall|j: int| 0 <= j < i ==> out@[j] == lower_byte(raw@[j]),
        decreases raw.len() - i,
    {
        let b = raw[i];
        if 65 <= b && b <= 90 {
            out.push(b + 32);
        } else {
            out.push(b);
        }
        i = i + 1;
    }
    proof {
        assert(out@ =~= lower_bytes(raw@));
    }
    out
}

/// Length of the adapter prefix of `v` starting at position `i`
/// (zero when none starts there).
fn adapter_prefix_at(v: &Vec<u8>, i: usize) -> (n: usize)
    requires
        i <= v.len(),
    ensures
        n as int == adapter_prefix_len(v@.skip(i as int)),
        i + n <= v.len(),
{
    let ghost s = v@.skip(i as int);
    if v.len() - i >= 3 && v[i] == 104 && v[i + 1] == 99 && v[i + 2] == 105 {
        let mut j: usize = i + 3;
        proof {
            assert(v@.skip(i as int + 3) =~= s.skip(3));
        }
        while j < v.len() && 48 <= v[j] && v[j] <= 57
            invariant
                i + 3 <= j <= v.len(),
                digit_run(v@.skip(i as int + 3)) == (j - (i + 3)) + digit_run(v@.skip(j as int)),
            decreases v.len() - j,
        {
            proof {
                assert(v@.skip(j as int)[0] == v@[j as int]);
                assert(v@.skip(j as int).skip(1) =~= v@.skip(j as int + 1));
            }
            j = j + 1;
        }
        proof {
            if j < v.len() {
                assert(v@.skip(j as int)[0] == v@[j as int]);
            }
            assert(digit_run(v@.skip(j as int)) == 0);
            assert(digit_run(s.skip(3)) == (j - (i + 3)));
        }
        let ghost k = digit_run(s.skip(3)) as int;
        if v.len() - j >= 5 && v[j] == 47 && v[j + 1] == 100 && v[j + 2] == 101 && v[j + 3] == 118
            && v[j + 4] == 95 {
            proof {
                assert(3 + k == j - i);
                assert(s[3 + k] == v@[j as int]);
                assert(s[3 + k + 1] == v@[j as int + 1]);
                assert(s[3 + k + 2] == v@[j as int + 2]);
                assert(s[3 + k + 3] == v@[j as int + 3]);
                assert(s[3 + k + 4] == v@[j as int + 4]);
                assert(dev_tag_at(s, 3 + k));
                assert(adapter_prefix_len(s) == 3 + k + 5);
            }
            j + 5 - i
        } else {
            proof {
                if j + 5 <= v.len() {
                    assert(s[3 + k] == v@[j as int]);
                    assert(s[3 + k + 1] == v@[j as int + 1]);
                    assert(s[3 + k + 2] == v@[j as int + 2]);
                    assert(s[3 + k + 3] == v@[j as int + 3]);
                    assert(s[3 + k + 4] == v@[j as int + 4]);
                }
                assert(!dev_tag_at(s, 3 + k));
                assert(adapter_prefix_len(s) == 0);
            }
            0
        }
    } else {
        proof {
            if v.len() - i >= 3 {
                assert(s[0] == v@[i as int]);
                assert(s[1] == v@[i as int + 1]);
                assert(s[2] == v@[i as int + 2]);
            }
            assert(adapter_prefix_len(s) == 0);
        }
        0
    }
}

/// Removes every adapter prefix and underscore from the (lowercased)
/// byte string `lw`.
fn strip_vec(lw: &Vec<u8>) -> (out: Vec<u8>)
    ensures
        out@ == strip_artifacts(lw@),
{
    let mut out: Vec<u8> = Vec::new();
    let mut i: usize = 0;
    proof {
        assert(lw@.skip(0) =~= lw@);
    }
    while i < lw.len()
        invariant
            i <= lw.len(),
            strip_artifacts(lw@) == out@ + strip_artifacts(lw@.skip(i as int)),
        decreases lw.len() - i,
    {
        let n = adapter_prefix_at(lw, i);
        if n > 0 {
            proof {
                assert(lw@.skip(i as int).skip(n as int) =~= lw@.skip(i as int + n as int));
            }
            i = i + n;
        } else if lw[i] == UNDERSCORE {
            proof {
                assert(lw@.skip(i as int)[0] == lw@[i as int]);
                assert(lw@.skip(i as int).skip(1) =~= lw@.skip(i as int + 1));
            }
            i = i + 1;
        } else {
            proof {
                assert(lw@.skip(i as int)[0] == lw@[i as int]);
                assert(lw@.skip(i as int).skip(1) =~= lw@.skip(i as int + 1));
            }
            out.push(lw[i]);
            proof {
                assert(out@ + strip_artifacts(lw@.skip(i as int + 1)) =~= (out@.drop_last() + (seq![
                    lw@[i as int],
                ] + strip_artifacts(lw@.skip(i as int + 1)))));
            }
            i = i + 1;
        }
    }
    proof {
        assert(lw@.skip(lw.len() as int) =~= Seq::<u8>::empty());
        assert(strip_artifacts(lw@) =~= out@);
    }
    out
}

/// No byte of the removal pass's output is an underscore.
pub proof fn lemma_strip_no_underscore(s: Seq<u8>)
    ensures
        forall|i: int| 0 <= i < strip_artifacts(s).len() ==> strip_artifacts(s)[i] != UNDERSCORE,
    decreases s.len(),
{
    if s.len() == 0 {
    } else if adapter_prefix_len(s) > 0 {
        assert(strip_artifacts(s) == strip_artifacts(s.skip(adapter_prefix_len(s))));
        lemma_strip_no_underscore(s.skip(adapter_prefix_len(s)));
    } else if s[0] == UNDERSCORE {
        assert(strip_artifacts(s) == strip_artifacts(s.skip(1)));
        lemma_strip_no_underscore(s.skip(1));
    } else {
        assert(strip_artifacts(s) == seq![s[0]] + strip_artifacts(s.skip(1)));
        lemma_strip_no_underscore(s.skip(1));
        assert forall|i: int| 0 <= i < strip_artifacts(s).len() implies strip_artifacts(s)[i]
            != UNDERSCORE by {
            if i == 0 {
                assert(strip_artifacts(s)[0] == s[0]);
            } else {
                assert(strip_artifacts(s)[i] == strip_artifacts(s.skip(1))[i - 1]);
            }
        }
    }
}

/// The removal pass introduces no uppercase byte: if `s` has none, its
/// output has none.
pub proof fn lemma_strip_no_upper(s: Seq<u8>)
    requires
        forall|i: int| 0 <= i < s.len() ==> !is_ascii_upper(s[i]),
    ensures
        forall|i: int|
            0 <= i < strip_artifacts(s).len() ==> !is_ascii_upper(strip_artifacts(s)[i]),
    decreases s.len(),
{
    if s.len() == 0 {
    } else if adapter_prefix_len(s) > 0 {
        assert(strip_artifacts(s) == strip_artifacts(s.skip(adapter_prefix_len(s))));
        lemma_strip_no_upper(s.skip(adapter_prefix_len(s)));
    } else if s[0] == UNDERSCORE {
        assert(strip_artifacts(s) == strip_artifacts(s.skip(1)));
        lemma_strip_no_upper(s.skip(1));
    } else {
        assert(strip_artifacts(s) == seq![s[0]] + strip_artifacts(s.skip(1)));
        lemma_strip_no_upper(s.skip(1));
        assert forall|i: int| 0 <= i < strip_artifacts(s).len() implies !is_ascii_upper(
            strip_artifacts(s)[i],
        ) by {
            if i == 0 {
                assert(strip_artifacts(s)[0] == s[0]);
            } else {
                assert(strip_artifacts(s)[i] == strip_artifacts(s.skip(1))[i - 1]);
            }
        }
    }
}

/// Lowercasing a byte string with no uppercase byte leaves it unchanged.
pub proof fn lemma_lower_identity(s: Seq<u8>)
    requires
        forall|i: int| 0 <= i < s.len() ==> !is_ascii_upper(s[i]),
    ensures
        lower_bytes(s) == s,
{
    assert(lower_bytes(s) =~= s);
}

/// Lowercasing leaves no uppercase byte.
pub proof fn lemma_lower_no_upper(s: Seq<u8>)
    ensures
        forall|i: int| 0 <= i < lower_bytes(s).len() ==> !is_ascii_upper(lower_bytes(s)[i]),
{
}

/// The removal pass leaves a string with no underscore unchanged.
pub proof fn lemma_strip_fixed(s: Seq<u8>)
    requires
        forall|i: int| 0 <= i < s.len() ==> s[i] != UNDERSCORE,
    ensures
        strip_artifacts(s) == s,
    decreases s.len(),
{
    if s.len() == 0 {
        assert(strip_artifacts(s) =~= s);
    } else {
        if adapter_prefix_len(s) > 0 {
            let k = digit_run(s.skip(3)) as int;
            assert(dev_tag_at(s, 3 + k));
            assert(s[3 + k + 4] == UNDERSCORE);
            assert(false);
        }
        lemma_strip_fixed(s.skip(1));
        assert(strip_artifacts(s) =~= s);
    }
}

/// Normalization is idempotent: normalizing a canonical identifier
/// returns it unchanged.
pub proof fn lemma_canonical_idempotent(s: Seq<u8>)
    ensures
        canonical(canonical(s)) == canonical(s),
{
    let c = canonical(s);
    lemma_lower_no_upper(s);
    lemma_strip_no_upper(lower_bytes(s));
    lemma_lower_identity(c);
    lemma_strip_no_underscore(lower_bytes(s));
    lemma_strip_fixed(c);
}

/// The nine bytes `hci0/dev_`.
pub open spec fn sample_prefix() -> Seq<u8> {
    seq![104u8, 99, 105, 48, 47, 100, 101, 118, 95]
}

/// A canonical identifier holds no artifact: no underscore anywhere, and
/// in particular no occurrence of `hci0/dev_`.
pub proof fn lemma_canonical_artifact_free(s: Seq<u8>)
    ensures
        forall|i: int| 0 <= i < canonical(s).len() ==> canonical(s)[i] != UNDERSCORE,
        forall|i: int|
            0 <= i && i + 9 <= canonical(s).len() ==> #[trigger] canonical(s).subrange(i, i + 9)
                != sample_prefix(),
{
    lemma_strip_no_underscore(lower_bytes(s));
    assert forall|i: int| 0 <= i && i + 9 <= canonical(s).len() implies #[trigger] canonical(
        s,
    ).subrange(i, i + 9) != sample_prefix() by {
        assert(canonical(s).subrange(i, i + 9)[8] == canonical(s)[i + 8]);
        assert(sample_prefix()[8] == UNDERSCORE);
    }
}

/// Normalizes a raw peripheral identifier to its canonical form:
/// lowercase, with all adapter prefixes and underscores removed.
pub fn normalize(raw: &Vec<u8>) -> (out: Vec<u8>)
    ensures
        out@ == canonical(raw@),
{
    let lw = lower_vec(raw);
    strip_vec(&lw)
}

} // verus!

