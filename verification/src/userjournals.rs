//! User-supplied journal abbreviations.  A RON map of full journal names to
//! their short forms is parsed by ron into an ordered map and kept as a
//! vector of pairs.

use vstd::prelude::*;

verus! {

/// A user's journal-abbreviation table: pairs of full name and short form.
pub type UserJournals = Vec<(String, String)>;

/// The model of a journal table: each pair as its characters.
pub open spec fn uj_model(v: Seq<(String, String)>) -> Seq<(Seq<char>, Seq<char>)>
    decreases v.len(),
{
    if v.len() == 0 {
        Seq::empty()
    } else {
        seq![(v[0].0@, v[0].1@)] + uj_model(v.drop_first())
    }
}

pub proof fn lemma_uj_model(v: Seq<(String, String)>)
    ensures
        uj_model(v).len() == v.len(),
        forall|k: int| 0 <= k < v.len() ==> uj_model(v)[k] == (v[k].0@, v[k].1@),
    decreases v.len(),
{
    if v.len() > 0 {
        lemma_uj_model(v.drop_first());
        assert forall|k: int| 0 <= k < v.len() implies uj_model(v)[k] == (v[k].0@, v[k].1@) by {
            if k > 0 {
                assert(v.drop_first()[k - 1] == v[k]);
            }
        }
    }
}

/// The entries a RON map of strings denotes, in key order, or nothing when
/// the text is not such a map.  The parse depends on the text alone.
pub uninterp spec fn ron_string_map_of(s: Seq<char>) -> Option<Seq<(Seq<char>, Seq<char>)>>;

/// Relies on `ron::de::from_str::<BTreeMap<String, String>>`: parses a RON
/// map of strings into its entries, in key order, or reports why the text is
/// not such a map.
#[verifier::external_body]
fn parse_ron_map(input: &str) -> (r: Result<Vec<(String, String)>, String>)
    ensures
        match r {
            Ok(v) => ron_string_map_of(input@) == Some(uj_model(v@)),
            Err(_) => ron_string_map_of(input@) is None,
        },
{
    match ron::de::from_str::<std::collections::BTreeMap<String, String>>(input) {
        Ok(m) => Ok(m.into_iter().collect()),
        Err(e) => Err(e.to_string()),
    }
}

/// Create the user-journal names list.
///
/// Succeeds exactly when the text is a RON map of strings, and then holds
/// its entries in key order.
pub fn build_user_journals(input: &str) -> (r: Result<UserJournals, String>)
    ensures
        match r {
            Ok(u) => ron_string_map_of(input@) == Some(uj_model(u@)),
            Err(e) => ron_string_map_of(input@) is None && crate::text::contains_sub(
                e@,
                "error deserializing the user journal file"@,
            ),
        },
{
    match parse_ron_map(input) {
        Ok(u) => Ok(u),
        Err(e) => {
            let mut msg = String::from_str("error deserializing the user journal file\u{2014}");
            msg.append(e.as_str());
            proof {
                reveal_strlit("error deserializing the user journal file\u{2014}");
                reveal_strlit("error deserializing the user journal file");
                assert(msg@.subrange(0, "error deserializing the user journal file"@.len() as int) =~= "error deserializing the user journal file"@);
                crate::text::lemma_has_prefix(msg@, "error deserializing the user journal file"@);
            }
            Err(msg)
        },
    }
}

/// The short form stored for `key`: the second member of the first pair whose
/// first member is `key`.
pub open spec fn journal_lookup(uj: Seq<(Seq<char>, Seq<char>)>, key: Seq<char>) -> Option<Seq<char>>
    decreases uj.len(),
{
    if uj.len() == 0 {
        None
    } else if uj[0].0 == key {
        Some(uj[0].1)
    } else {
        journal_lookup(uj.drop_first(), key)
    }
}

/// Look a journal name up in the user's table.
pub fn lookup_user_journal(uj: &UserJournals, key: &String) -> (r: Option<String>)
    ensures
        match r {
            Some(s) => journal_lookup(uj_model(uj@), key@) == Some(s@),
            None => journal_lookup(uj_model(uj@), key@) is None,
        },
{
    let ghost m = uj_model(uj@);
    let n: usize = uj.len();
    let mut i: usize = 0;
    proof {
        lemma_uj_model(uj@);
        assert(m.skip(0) =~= m);
    }
    while i < n
        invariant
            n == uj@.len(),
            i <= n,
            m == uj_model(uj@),
            m.len() == n,
            forall|k: int| 0 <= k < n ==> m[k] == (uj@[k].0@, uj@[k].1@),
            journal_lookup(m, key@) == journal_lookup(m.skip(i as int), key@),
        decreases n - i,
    {
        if uj[i].0 == *key {
            proof {
                assert(m.skip(i as int)[0] == m[i as int]);
            }
            return Some(uj[i].1.clone());
        }
        proof {
            assert(m.skip(i as int).drop_first() =~= m.skip(i + 1));
            assert(m.skip(i as int)[0] == m[i as int]);
        }
        i = i + 1;
    }
    proof {
        assert(m.skip(n as int).len() == 0);
    }
    None
}

} // verus!
