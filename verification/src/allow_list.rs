//! The allow-list of canonical identifiers.
//!
//! The list is loaded once from a comma-delimited configuration value;
//! membership is exact byte-string equality. An empty configuration
//! yields an empty list, which matches nothing.

use vstd::prelude::*;

verus! {

/// ASCII code of `,`.
pub const COMMA: u8 = 44;

/// Splitting a byte string on commas, one byte at a time: there is
/// always at least one field, and each comma ends the current field.
pub open spec fn comma_fields(s: Seq<u8>) -> Seq<Seq<u8>>
    decreases s.len(),
{
    if s.len() == 0 {
        seq![Seq::<u8>::empty()]
    } else if s[0] == COMMA {
        seq![Seq::<u8>::empty()] + comma_fields(s.skip(1))
    } else {
        let rest = comma_fields(s.skip(1));
        seq![seq![s[0]] + rest[0]] + rest.skip(1)
    }
}

/// The entries an allow-list holds for a configuration value: none for
/// an empty value, else the comma-separated fields.
pub open spec fn config_entries(s: Seq<u8>) -> Seq<Seq<u8>> {
    if s.len() == 0 {
        Seq::empty()
    } else {
        comma_fields(s)
    }
}

/// Splitting always yields at least one field.
pub proof fn lemma_comma_fields_nonempty(s: Seq<u8>)
    ensures
        comma_fields(s).len() >= 1,
    decreases s.len(),
{
    if s.len() == 0 {
    } else if s[0] == COMMA {
        lemma_comma_fields_nonempty(s.skip(1));
    } else {
        lemma_comma_fields_nonempty(s.skip(1));
    }
}

/// The set of canonical identifiers the scanner publishes for.
pub struct AllowList {
    entries: Vec<Vec<u8>>,
}

impl View for AllowList {
    type V = Seq<Seq<u8>>;

    closed spec fn view(&self) -> Seq<Seq<u8>> {
        self.entries.deep_view()
    }
}

/// Byte-string equality of two vectors.
fn bytes_eq(a: &Vec<u8>, b: &Vec<u8>) -> (r: bool)
    ensures
        r == (a@ == b@),
{
    if a.len() != b.len() {
        return false;
    }
    let mut i: usize = 0;
    while i < a.len()
        invariant
            i <= a.len(),
            a@.len() == b@.len(),
            forall|j: int| 0 <= j < i ==> a@[j] == b@[j],
        decreases a.len() - i,
    {
        if a[i] != b[i] {
            return false;
        }
        i = i + 1;
    }
    proof {
        assert(a@ =~= b@);
    }
    true
}

impl AllowList {
    /// Builds the allow-list from a comma-delimited configuration value.
    /// An empty value gives an empty list.
    pub fn from_config(config: &Vec<u8>) -> (r: AllowList)
        ensures
            r@ == config_entries(config@),
    {
        let mut entries: Vec<Vec<u8>> = Vec::new();
        if config.len() == 0 {
            let r = AllowList { entries };
            proof {
                assert(r@ =~= config_entries(config@));
            }
            return r;
        }
        let mut cur: Vec<u8> = Vec::new();
        let mut i: usize = 0;
        proof {
            assert(config@.skip(0) =~= config@);
            lemma_comma_fields_nonempty(config@);
            assert(entries.deep_view() + seq![cur@ + comma_fields(config@.skip(0))[0]]
                + comma_fields(config@.skip(0)).skip(1) =~= comma_fields(config@));
        }
        while i < config.len()
            invariant
                i <= config.len(),
                comma_fields(config@.skip(i as int)).len() >= 1,
                entries.deep_view() + seq![cur@ + comma_fields(config@.skip(i as int))[0]]
                    + comma_fields(config@.skip(i as int)).skip(1) == comma_fields(config@),
            decreases config.len() - i,
        {
            let ghost si = config@.skip(i as int);
            let ghost old_entries = entries.deep_view();
            let ghost old_cur = cur@;
            proof {
                assert(si[0] == config@[i as int]);
                assert(si.skip(1) =~= config@.skip(i as int + 1));
                lemma_comma_fields_nonempty(config@.skip(i as int + 1));
            }
            let ghost rest = comma_fields(config@.skip(i as int + 1));
            if config[i] == COMMA {
                entries.push(cur);
                cur = Vec::new();
                proof {
                    assert(comma_fields(si) == seq![Seq::<u8>::empty()] + rest);
                    assert(comma_fields(si)[0] =~= Seq::<u8>::empty());
                    assert(comma_fields(si).skip(1) =~= rest);
                    assert(entries.deep_view() =~~= old_entries + seq![old_cur]);
                    assert(entries.deep_view() + seq![cur@ + rest[0]] + rest.skip(1) =~= old_entries
                        + seq![old_cur + comma_fields(si)[0]] + comma_fields(si).skip(1));
                }
            } else {
                cur.push(config[i]);
                proof {
                    assert(comma_fields(si) == seq![seq![si[0]] + rest[0]] + rest.skip(1));
                    assert(comma_fields(si)[0] == seq![si[0]] + rest[0]);
                    assert(comma_fields(si).skip(1) =~= rest.skip(1));
                    assert(cur@ =~= old_cur + seq![config@[i as int]]);
                    assert(cur@ + rest[0] =~= old_cur + comma_fields(si)[0]);
                    assert(entries.deep_view() + seq![cur@ + rest[0]] + rest.skip(1) =~= old_entries
                        + seq![old_cur + comma_fields(si)[0]] + comma_fields(si).skip(1));
                }
            }
            i = i + 1;
        }
        proof {
            assert(config@.skip(config.len() as int) =~= Seq::<u8>::empty());
            assert(comma_fields(Seq::<u8>::empty()) == seq![Seq::<u8>::empty()]);
        }
        let ghost old_entries = entries.deep_view();
        let ghost final_cur = cur@;
        entries.push(cur);
        let r = AllowList { entries };
        proof {
            assert(r@ =~~= old_entries + seq![final_cur]);
            assert(old_entries + seq![final_cur + comma_fields(config@.skip(config.len() as int))[0]]
                + comma_fields(config@.skip(config.len() as int)).skip(1) =~= old_entries + seq![
                final_cur,
            ]);
        }
        r
    }

    /// How many entries the list holds.
    pub fn len(&self) -> (n: usize)
        ensures
            n == self@.len(),
    {
        self.entries.len()
    }

    /// Exact membership: whether `id` is one of the configured entries.
    pub fn contains_id(&self, id: &Vec<u8>) -> (r: bool)
        ensures
            r == self@.contains(id@),
    {
        let mut i: usize = 0;
        while i < self.entries.len()
            invariant
                i <= self.entries.len(),
                forall|j: int| 0 <= j < i ==> self@[j] != id@,
            decreases self.entries.len() - i,
        {
            let hit = bytes_eq(&self.entries[i], id);
            proof {
                assert(self@[i as int] =~= self.entries@[i as int]@);
            }
            if hit {
                proof {
                    assert(self@[i as int] == id@);
                }
                return true;
            }
            i = i + 1;
        }
        proof {
            if self@.contains(id@) {
                let j = choose|j: int| 0 <= j < self@.len() && self@[j] == id@;
                assert(self@[j] != id@);
            }
        }
        false
    }
}

/// An empty allow-list admits no identifier: an empty configuration
/// value matches nothing.
pub proof fn lemma_empty_config_matches_nothing(id: Seq<u8>)
    ensures
        !config_entries(Seq::<u8>::empty()).contains(id),
{
}

} // verus!
