//! Which staged player ids the master data does not know yet.

use vstd::prelude::*;

verus! {

/// `id` matches a row of the master data. An empty field stands for a
/// missing value, which matches nothing.
pub open spec fn is_known(id: Seq<char>, master_ids: Seq<Seq<char>>) -> bool {
    id.len() > 0 && master_ids.contains(id)
}

/// The staged ids, in order and with repeats, that match no master-data id.
pub open spec fn new_ids_spec(staging_ids: Seq<Seq<char>>, master_ids: Seq<Seq<char>>) -> Seq<
    Seq<char>,
>
    decreases staging_ids.len(),
{
    if staging_ids.len() == 0 {
        Seq::<Seq<char>>::empty()
    } else {
        let prev = new_ids_spec(staging_ids.drop_last(), master_ids);
        if is_known(staging_ids.last(), master_ids) {
            prev
        } else {
            prev.push(staging_ids.last())
        }
    }
}

/// Whether `id` is a non-empty id among `master_ids`.
fn known(id: &String, master_ids: &Vec<String>) -> (res: bool)
    ensures
        res == is_known(id@, master_ids.deep_view()),
{
    if id.as_str().is_empty() {
        return false;
    }
    let mut i: usize = 0;
    while i < master_ids.len()
        invariant
            i <= master_ids.len(),
            id@.len() > 0,
            forall|j: int| 0 <= j < i ==> master_ids.deep_view()[j] != id@,
        decreases master_ids.len() - i,
    {
        if master_ids[i] == *id {
            assert(master_ids.deep_view()[i as int] == id@);
            assert(master_ids.deep_view().contains(id@));
            return true;
        }
        i = i + 1;
    }
    false
}

/// The staged player ids (rows of the staging list, in order, repeats kept)
/// that match no id of the master data: those whose profiles still have to
/// be fetched. An empty id stands for a missing value and is always kept.
pub fn update_latest_info(staging_ids: &Vec<String>, master_ids: &Vec<String>) -> (res: Vec<String>)
    ensures
        res.deep_view() == new_ids_spec(staging_ids.deep_view(), master_ids.deep_view()),
{
    let mut out: Vec<String> = Vec::new();
    let ghost st = staging_ids.deep_view();
    let ghost ms = master_ids.deep_view();
    let mut i: usize = 0;
    while i < staging_ids.len()
        invariant
            i <= staging_ids.len(),
            st == staging_ids.deep_view(),
            ms == master_ids.deep_view(),
            out.deep_view() == new_ids_spec(st.take(i as int), ms),
        decreases staging_ids.len() - i,
    {
        assert(st.take(i + 1).drop_last() =~= st.take(i as int));
        assert(st.take(i + 1).last() == staging_ids@[i as int]@);
        if !known(&staging_ids[i], master_ids) {
            let ghost before = out.deep_view();
            out.push(staging_ids[i].clone());
            assert(out.deep_view() =~= before.push(staging_ids@[i as int]@));
        }
        i = i + 1;
    }
    assert(st.take(i as int) =~= st);
    out
}


/// What the list of new ids holds: only staged ids, and none that the
/// master data knows.
pub proof fn lemma_new_ids_members(staging_ids: Seq<Seq<char>>, master_ids: Seq<Seq<char>>, id: Seq<char>)
    ensures
        new_ids_spec(staging_ids, master_ids).contains(id) ==> staging_ids.contains(id)
            && !is_known(id, master_ids),
        staging_ids.contains(id) && !is_known(id, master_ids) ==> new_ids_spec(
            staging_ids,
            master_ids,
        ).contains(id),
    decreases staging_ids.len(),
{
    if staging_ids.len() > 0 {
        let init = staging_ids.drop_last();
        lemma_new_ids_members(init, master_ids, id);
        let prev = new_ids_spec(init, master_ids);
        let last = staging_ids.last();
        assert(staging_ids =~= init.push(last));
        if new_ids_spec(staging_ids, master_ids).contains(id) {
            if !is_known(last, master_ids) {
                let k = choose|k: int|
                    0 <= k < prev.push(last).len() && prev.push(last)[k] == id;
                if k == prev.len() {
                    assert(staging_ids[staging_ids.len() - 1] == id);
                } else {
                    assert(prev[k] == id);
                    let j = choose|j: int| 0 <= j < init.len() && init[j] == id;
                    assert(staging_ids[j] == id);
                }
            } else {
                let j = choose|j: int| 0 <= j < init.len() && init[j] == id;
                assert(staging_ids[j] == id);
            }
        }
        if staging_ids.contains(id) && !is_known(id, master_ids) {
            let j = choose|j: int| 0 <= j < staging_ids.len() && staging_ids[j] == id;
            if j == staging_ids.len() - 1 {
                assert(new_ids_spec(staging_ids, master_ids) == prev.push(last));
                assert(prev.push(last)[prev.len() as int] == id);
            } else {
                assert(init[j] == id);
                let k = choose|k: int| 0 <= k < prev.len() && prev[k] == id;
                if !is_known(last, master_ids) {
                    assert(prev.push(last)[k] == id);
                }
            }
        }
    }
}

/// Asking again which ids are new, of the ids found new, gives the same list.
pub proof fn law_new_ids_idempotent(staging_ids: Seq<Seq<char>>, master_ids: Seq<Seq<char>>)
    ensures
        new_ids_spec(new_ids_spec(staging_ids, master_ids), master_ids) == new_ids_spec(
            staging_ids,
            master_ids,
        ),
    decreases staging_ids.len(),
{
    if staging_ids.len() > 0 {
        let init = staging_ids.drop_last();
        law_new_ids_idempotent(init, master_ids);
        let prev = new_ids_spec(init, master_ids);
        let last = staging_ids.last();
        if !is_known(last, master_ids) {
            let r = prev.push(last);
            assert(r.drop_last() =~= prev);
            assert(r.last() == last);
        }
    }
}

/// Once the master data holds the ids that were found new, asking again
/// finds nothing new but empty (missing) ids.
pub proof fn law_new_ids_absorbed(staging_ids: Seq<Seq<char>>, master_ids: Seq<Seq<char>>)
    ensures
        ({
            let again = new_ids_spec(
                staging_ids,
                master_ids + new_ids_spec(staging_ids, master_ids),
            );
            forall|i: int| 0 <= i < again.len() ==> (#[trigger] again[i]).len() == 0
        }),
{
    let found = new_ids_spec(staging_ids, master_ids);
    let grown = master_ids + found;
    let again = new_ids_spec(staging_ids, grown);
    assert forall|i: int| 0 <= i < again.len() implies (#[trigger] again[i]).len() == 0 by {
        let id = again[i];
        assert(again.contains(id));
        lemma_new_ids_members(staging_ids, grown, id);
        lemma_new_ids_members(staging_ids, master_ids, id);
        if id.len() > 0 {
            if master_ids.contains(id) {
                let k = choose|k: int| 0 <= k < master_ids.len() && master_ids[k] == id;
                assert(grown[k] == id);
                assert(grown.contains(id));
            } else {
                assert(found.contains(id));
                let k = choose|k: int| 0 <= k < found.len() && found[k] == id;
                assert(grown[master_ids.len() + k] == id);
                assert(grown.contains(id));
            }
        }
    }
}


/// An id is listed as new exactly when it is staged and is empty (a missing
/// value, which matches nothing) or equal to no master-data id.
pub proof fn law_new_ids_exact(staging_ids: Seq<Seq<char>>, master_ids: Seq<Seq<char>>, id: Seq<char>)
    ensures
        new_ids_spec(staging_ids, master_ids).contains(id) <==> (staging_ids.contains(id) && (
        id.len() == 0 || !master_ids.contains(id))),
{
    lemma_new_ids_members(staging_ids, master_ids, id);
}

/// The new ids of two staging lists put end to end are those of the first,
/// in order, then those of the second, in order.
pub proof fn law_new_ids_concat(a: Seq<Seq<char>>, b: Seq<Seq<char>>, master_ids: Seq<Seq<char>>)
    ensures
        new_ids_spec(a + b, master_ids) == new_ids_spec(a, master_ids) + new_ids_spec(b, master_ids),
    decreases b.len(),
{
    if b.len() == 0 {
        assert(a + b =~= a);
        assert(new_ids_spec(a, master_ids) + new_ids_spec(b, master_ids) =~= new_ids_spec(a, master_ids));
    } else {
        law_new_ids_concat(a, b.drop_last(), master_ids);
        assert((a + b).drop_last() =~= a + b.drop_last());
        assert((a + b).last() == b.last());
        if !is_known(b.last(), master_ids) {
            assert(new_ids_spec(a, master_ids) + new_ids_spec(b.drop_last(), master_ids).push(b.last())
                =~= (new_ids_spec(a, master_ids) + new_ids_spec(b.drop_last(), master_ids)).push(b.last()));
        }
    }
}

} // verus!
