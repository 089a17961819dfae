//! The cloud model catalog: the ids the Ollama cloud lists, turned into
//! the names `ollama` runs them by.

use vstd::prelude::*;
use vstd::relations::sorted_by;
use vstd::seq_lib::lemma_multiset_commutative;
use crate::order::{lex_le, chars_le, lemma_lex_le_total_ordering};
use crate::process::views;
use crate::text::{ends_with, contains_char, to_chars};

verus! {

/// A model that can be launched, by the name `ollama` runs it under.
#[derive(Clone, Debug)]
pub struct Model {
    pub name: String,
}

/// The name `ollama` runs a cloud catalog id under. Ids that already
/// end in `-cloud` or `:cloud` stay as they are; tagged ids get
/// `-cloud` appended (`gpt-oss:120b` gives `gpt-oss:120b-cloud`),
/// untagged ids `:cloud` (`glm-4.6` gives `glm-4.6:cloud`).
pub open spec fn cloud_ref_of(id: Seq<char>) -> Seq<char> {
    if "-cloud"@.is_suffix_of(id) || ":cloud"@.is_suffix_of(id) {
        id
    } else if id.contains(':') {
        id + "-cloud"@
    } else {
        id + ":cloud"@
    }
}

/// The name `ollama` runs a cloud catalog id under.
pub fn to_cloud_ref(id: &str) -> (r: String)
    ensures
        r@ == cloud_ref_of(id@),
{
    if ends_with(id, "-cloud") || ends_with(id, ":cloud") {
        String::from_str(id)
    } else if contains_char(id, ':') {
        String::from_str(id).concat("-cloud")
    } else {
        String::from_str(id).concat(":cloud")
    }
}

/// Every cloud ref ends in `-cloud` or `:cloud`.
pub proof fn lemma_cloud_ref_is_cloud(id: Seq<char>)
    ensures
        "-cloud"@.is_suffix_of(cloud_ref_of(id)) || ":cloud"@.is_suffix_of(cloud_ref_of(id)),
{
    reveal_strlit("-cloud");
    reveal_strlit(":cloud");
    let r = cloud_ref_of(id);
    if !("-cloud"@.is_suffix_of(id) || ":cloud"@.is_suffix_of(id)) {
        if id.contains(':') {
            assert(r.subrange(r.len() - 6, r.len() as int) =~= "-cloud"@);
        } else {
            assert(r.subrange(r.len() - 6, r.len() as int) =~= ":cloud"@);
        }
    }
}

/// Turning an id into a cloud ref twice is the same as once.
pub proof fn lemma_cloud_ref_idempotent(id: Seq<char>)
    ensures
        cloud_ref_of(cloud_ref_of(id)) == cloud_ref_of(id),
{
    lemma_cloud_ref_is_cloud(id);
}

/// The names of a list of models, in order.
pub open spec fn model_names(models: Seq<Model>) -> Seq<Seq<char>> {
    models.map_values(|m: Model| m.name@)
}

/// The order the catalog is listed in: by name.
pub open spec fn name_le() -> spec_fn(Seq<char>, Seq<char>) -> bool {
    |a: Seq<char>, b: Seq<char>| lex_le(a, b)
}

/// The cloud refs of a list of catalog ids, in the ids' order.
pub open spec fn cloud_refs(ids: Seq<Seq<char>>) -> Seq<Seq<char>> {
    ids.map_values(|id: Seq<char>| cloud_ref_of(id))
}

/// Inserting into a sequence adds the element to its multiset.
proof fn lemma_insert_multiset<A>(s: Seq<A>, j: int, x: A)
    requires
        0 <= j <= s.len(),
    ensures
        s.insert(j, x).to_multiset() =~= s.to_multiset().insert(x),
{
    let front = s.subrange(0, j);
    let back = s.subrange(j, s.len() as int);
    assert(s =~= front + back);
    lemma_multiset_commutative(front, back);
    lemma_multiset_commutative(front.push(x), back);
    vstd::seq_lib::to_multiset_build(front, x);
}

/// The launchable models of a cloud catalog, given the ids it lists:
/// each id's cloud ref, sorted by name.
pub fn models_from_catalog(ids: &Vec<String>) -> (models: Vec<Model>)
    ensures
        model_names(models@) == cloud_refs(views(ids@)).sort_by(name_le()),
        sorted_by(model_names(models@), name_le()),
        model_names(models@).to_multiset() == cloud_refs(views(ids@)).to_multiset(),
{
    let ghost refs = cloud_refs(views(ids@));
    let ghost le = name_le();
    proof {
        lemma_lex_le_total_ordering();
    }
    let mut sorted: Vec<Model> = Vec::new();
    let mut i: usize = 0;
    proof {
        assert(model_names(sorted@) =~= refs.take(0));
    }
    while i < ids.len()
        invariant
            i <= ids.len(),
            refs == cloud_refs(views(ids@)),
            le == name_le(),
            vstd::relations::total_ordering(le),
            sorted_by(model_names(sorted@), le),
            model_names(sorted@).to_multiset() == refs.take(i as int).to_multiset(),
        decreases ids.len() - i,
    {
        let m = Model { name: to_cloud_ref(ids[i].as_str()) };
        let mchars = to_chars(m.name.as_str());
        let ghost names = model_names(sorted@);
        let mut j: usize = 0;
        while j < sorted.len()
            invariant
                j <= sorted.len(),
                names == model_names(sorted@),
                mchars@ == m.name@,
                forall|k: int| 0 <= k < j ==> lex_le(#[trigger] names[k], m.name@),
            ensures
                j <= sorted.len(),
                forall|k: int| 0 <= k < j ==> lex_le(#[trigger] names[k], m.name@),
                j < sorted.len() ==> !lex_le(names[j as int], m.name@),
            decreases sorted.len() - j,
        {
            let other = to_chars(sorted[j].name.as_str());
            proof {
                assert(names[j as int] == sorted@[j as int].name@);
            }
            if !chars_le(&other, &mchars) {
                break;
            }
            j = j + 1;
        }
        let ghost x = m.name@;
        sorted.insert(j, m);
        proof {
            let new_names = model_names(sorted@);
            assert(new_names =~= names.insert(j as int, x));
            lemma_insert_multiset(names, j as int, x);
            assert(views(ids@)[i as int] == ids@[i as int]@);
            assert(refs[i as int] == x);
            assert(refs.take(i + 1) =~= refs.take(i as int).push(x));
            vstd::seq_lib::to_multiset_build(refs.take(i as int), x);
            assert forall|p: int, q: int| 0 <= p < q < new_names.len() implies #[trigger] le(
                new_names[p],
                new_names[q],
            ) by {
                if q < j {
                    assert(le(names[p], names[q]));
                } else if q == j {
                    assert(lex_le(names[p], x));
                } else if p < j {
                    assert(le(names[p], names[q - 1]));
                } else if p == j {
                    assert(!lex_le(names[j as int], x));
                    assert(le(x, names[j as int]) || le(names[j as int], x));
                    if q - 1 > j {
                        assert(le(names[j as int], names[q - 1]));
                    }
                } else {
                    assert(le(names[p - 1], names[q - 1]));
                }
            }
        }
        i = i + 1;
    }
    proof {
        assert(refs.take(ids.len() as int) =~= refs);
        refs.lemma_sort_by_ensures(le);
        vstd::seq_lib::lemma_sorted_unique(model_names(sorted@), refs.sort_by(le), le);
    }
    sorted
}

} // verus!
