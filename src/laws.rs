//! Properties of the cache that span several operations, stated over the
//! model that the operations' contracts use.

use vstd::prelude::*;

use crate::image_id::{has_prefix, image_of_key, scheme, ImageId, LoadError};
use crate::loader::{
    forget_all_spec, forget_spec, load_spec, no_ids, resolve_spec, ImageSize, LoaderView,
    TexturePoll,
};
use crate::options::VARIANT_COUNT;

verus! {

/// The state after requesting `key` once in each of `slots`, in order.
pub open spec fn load_many(s: LoaderView, key: Seq<char>, slots: Seq<int>) -> LoaderView
    decreases slots.len(),
{
    if slots.len() == 0 {
        s
    } else {
        load_spec(load_many(s, key, slots.drop_last()), key, slots.last()).0
    }
}

/// A second identical request changes nothing and gives the same answer as
/// the first, so the variant keeps the handle that the first one gave it.
pub proof fn lemma_request_twice(s: LoaderView, key: Seq<char>, slot: int)
    requires
        s.wf(),
        0 <= slot < VARIANT_COUNT,
    ensures
        load_spec(load_spec(s, key, slot).0, key, slot).0 == load_spec(s, key, slot).0,
        load_spec(load_spec(s, key, slot).0, key, slot).1 == load_spec(s, key, slot).1,
        load_spec(s, key, slot).1 is Ok ==> load_spec(s, key, slot).0.entries[key].ids[slot] is Some,
{
    let s1 = load_spec(s, key, slot).0;
    let s2 = load_spec(s1, key, slot).0;
    if load_spec(s, key, slot).1 is Ok {
        assert(s1.entries[key].ids.len() == VARIANT_COUNT) by {
            if s.entries.contains_key(key) {
            } else {
                assert(no_ids().len() == VARIANT_COUNT);
            }
        }
        let e = s1.entries[key];
        assert(e.ids.update(slot, e.ids[slot]) =~= e.ids);
        assert(s2.entries =~= s1.entries);
    }
}

/// However many variants of an unseen key are requested, the key is put in
/// the queue exactly once.
pub proof fn lemma_single_registration(
    s: LoaderView,
    key: Seq<char>,
    image: ImageId,
    slots: Seq<int>,
)
    requires
        !s.entries.contains_key(key),
        image_of_key(key) == Ok::<ImageId, LoadError>(image),
        slots.len() > 0,
    ensures
        load_many(s, key, slots).queue == s.queue.push((key, image)),
        load_many(s, key, slots).entries.contains_key(key),
    decreases slots.len(),
{
    assert(has_prefix(key, scheme()));
    if slots.len() > 1 {
        lemma_single_registration(s, key, image, slots.drop_last());
    } else {
        assert(load_many(s, key, slots.drop_last()) == s);
    }
}

/// Once a size is recorded for a key that has an entry, a request in any
/// variant is `Ready` with that size: with the variant's handle, or with a
/// fresh one where the variant had none.
pub proof fn lemma_ready_after_resolve(
    s: LoaderView,
    key: Seq<char>,
    size: ImageSize,
    slot: int,
)
    requires
        s.wf(),
        s.entries.contains_key(key),
        0 <= slot < VARIANT_COUNT,
    ensures
        ({
            let s2 = load_spec(resolve_spec(s, key, size), key, slot).0;
            let r = load_spec(resolve_spec(s, key, size), key, slot).1;
            &&& r == Ok::<TexturePoll, LoadError>(
                TexturePoll::Ready { handle: s2.entries[key].ids[slot]->0, size },
            )
            &&& s2.entries[key].ids[slot] == if s.entries[key].ids[slot] is Some {
                s.entries[key].ids[slot]
            } else {
                Some(s.next_handle as u64)
            }
        }),
{
}

/// After a key is forgotten, a size recorded for it is dropped, and the next
/// request treats the key as new: `Pending`, with a fresh record in the queue.
pub proof fn lemma_forget_then_resolve(
    s: LoaderView,
    key: Seq<char>,
    image: ImageId,
    size: ImageSize,
    slot: int,
)
    requires
        image_of_key(key) == Ok::<ImageId, LoadError>(image),
    ensures
        resolve_spec(forget_spec(s, key), key, size) == forget_spec(s, key),
        load_spec(forget_spec(s, key), key, slot).1 == Ok::<TexturePoll, LoadError>(
            TexturePoll::Pending,
        ),
        load_spec(forget_spec(s, key), key, slot).0.queue == s.queue.push((key, image)),
{
}

/// Forgetting everything leaves no entry and keeps the counter, so the
/// handle that the next request mints differs from every handle held before.
pub proof fn lemma_no_reuse_after_clear(s: LoaderView, key: Seq<char>, slot: int)
    requires
        s.wf(),
        0 <= slot < VARIANT_COUNT,
    ensures
        forget_all_spec(s).entries == Map::<Seq<char>, crate::loader::EntryView>::empty(),
        forget_all_spec(s).next_handle == s.next_handle,
        load_spec(forget_all_spec(s), key, slot).1 is Ok ==> {
            let h = load_spec(forget_all_spec(s), key, slot).0.entries[key].ids[slot];
            &&& h == Some(s.next_handle as u64)
            &&& forall|k: Seq<char>, i: int|
                s.entries.contains_key(k) && 0 <= i < VARIANT_COUNT && (
                #[trigger] s.entries[k].ids[i]) is Some ==> s.entries[k].ids[i] != h
        },
{
}

} // verus!
