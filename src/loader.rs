//! The texture handle cache: one display handle per (key, sampling
//! variant), minted on first demand, and a queue of keys seen for the
//! first time.

use vstd::prelude::*;

use crate::image_id::{has_prefix, image_of_key, same_text, scheme, strip_prefix, ImageId, LoadError};
use crate::options::{option_bits, texture_option_bits, TextureOptions, VARIANT_COUNT};

verus! {

/// Size of a decoded image, in pixels.
#[derive(Clone, Copy, Debug, PartialEq, Eq, Structural)]
pub struct ImageSize {
    pub width: u32,
    pub height: u32,
}

/// Outcome of a successful request.
#[derive(Clone, Copy, Debug, PartialEq, Eq, Structural)]
pub enum TexturePoll {
    /// The image is not decoded yet.
    Pending,
    /// The image is decoded; draw it with `handle`.
    Ready { handle: u64, size: ImageSize },
}

/// What the cache holds for one key.
pub struct EntryView {
    /// The handle of each sampling variant, where one was minted.
    pub ids: Seq<Option<u64>>,
    pub image: ImageId,
    pub size: Option<ImageSize>,
}

/// Abstract state of the cache.
pub struct LoaderView {
    pub entries: Map<Seq<char>, EntryView>,
    /// Keys seen for the first time, with their images, oldest first.
    pub queue: Seq<(Seq<char>, ImageId)>,
    /// The next handle to mint.
    pub next_handle: nat,
}

/// Abstract state of the entry registry.
pub struct RegistryView {
    pub entries: Map<Seq<char>, EntryView>,
    /// The next handle to mint.
    pub next_handle: nat,
}

impl LoaderView {
    /// The registry part of the cache.
    pub open spec fn registry(self) -> RegistryView {
        RegistryView { entries: self.entries, next_handle: self.next_handle }
    }

    pub open spec fn wf(self) -> bool {
        self.registry().wf()
    }
}

/// Per-key record: one optional handle per sampling variant, the image and,
/// once decoded, its size.
#[derive(Clone, Copy, Debug)]
pub struct LoaderEntry {
    egui_ids: [Option<u64>; 12],
    bevy_id: ImageId,
    pub size: Option<ImageSize>,
}

impl View for LoaderEntry {
    type V = EntryView;

    closed spec fn view(&self) -> EntryView {
        EntryView { ids: self.egui_ids@, image: self.bevy_id, size: self.size }
    }
}

pub open spec fn no_ids() -> Seq<Option<u64>> {
    Seq::new(12, |i: int| None::<u64>)
}

impl RegistryView {
    /// The cache made of this registry and the queue `q`.
    pub open spec fn with_queue(self, q: Seq<(Seq<char>, ImageId)>) -> LoaderView {
        LoaderView { entries: self.entries, queue: q, next_handle: self.next_handle }
    }

    /// Every entry has one slot per variant and is named by its key; every
    /// handle is below the next one and no two slots share a handle.
    pub open spec fn wf(self) -> bool {
        &&& self.next_handle <= u64::MAX
        &&& forall|k: Seq<char>| #[trigger]
            self.entries.contains_key(k) ==> self.entries[k].ids.len() == VARIANT_COUNT
                && image_of_key(k) == Ok::<ImageId, LoadError>(self.entries[k].image)
        &&& forall|k: Seq<char>, i: int|
            self.entries.contains_key(k) && 0 <= i < VARIANT_COUNT && (
            #[trigger] self.entries[k].ids[i]) is Some ==> (self.entries[k].ids[i]->0 as nat)
                < self.next_handle
        &&& forall|k1: Seq<char>, i1: int, k2: Seq<char>, i2: int|
            self.entries.contains_key(k1) && self.entries.contains_key(k2) && 0 <= i1
                < VARIANT_COUNT && 0 <= i2 < VARIANT_COUNT && (#[trigger] self.entries[k1].ids[i1])
                is Some && self.entries[k1].ids[i1] == #[trigger] self.entries[k2].ids[i2] ==> k1
                == k2 && i1 == i2
    }
}

/// Next registry state, answer, and the record to put in the queue (for a
/// key seen for the first time) of a request for `key` in variant `slot`.
pub open spec fn request_spec(s: RegistryView, key: Seq<char>, slot: int) -> (
    RegistryView,
    Result<TexturePoll, LoadError>,
    Option<(Seq<char>, ImageId)>,
) {
    if !has_prefix(key, scheme()) {
        (s, Err(LoadError::NotSupported), None)
    } else if s.entries.contains_key(key) {
        let e = s.entries[key];
        let minted = e.ids[slot] is None;
        let handle = if minted {
            s.next_handle as u64
        } else {
            e.ids[slot]->0
        };
        let e2 = EntryView { ids: e.ids.update(slot, Some(handle)), image: e.image, size: e.size };
        (
            RegistryView {
                entries: s.entries.insert(key, e2),
                next_handle: if minted {
                    s.next_handle + 1
                } else {
                    s.next_handle
                },
            },
            Ok(
                match e.size {
                    Some(size) => TexturePoll::Ready { handle, size },
                    None => TexturePoll::Pending,
                },
            ),
            None,
        )
    } else {
        match image_of_key(key) {
            Err(err) => (s, Err(err), None),
            Ok(image) => (
                RegistryView {
                    entries: s.entries.insert(
                        key,
                        EntryView {
                            ids: no_ids().update(slot, Some(s.next_handle as u64)),
                            image,
                            size: None,
                        },
                    ),
                    next_handle: s.next_handle + 1,
                },
                Ok(TexturePoll::Pending),
                Some((key, image)),
            ),
        }
    }
}

/// Result and next state of a request for `key` in variant `slot`: the
/// registry's step, with its record, if any, put at the end of the queue.
pub open spec fn load_spec(s: LoaderView, key: Seq<char>, slot: int) -> (
    LoaderView,
    Result<TexturePoll, LoadError>,
) {
    let step = request_spec(s.registry(), key, slot);
    (
        LoaderView {
            entries: step.0.entries,
            queue: match step.2 {
                Some(record) => s.queue.push(record),
                None => s.queue,
            },
            next_handle: step.0.next_handle,
        },
        step.1,
    )
}

pub open spec fn forget_spec(s: LoaderView, key: Seq<char>) -> LoaderView {
    LoaderView { entries: s.entries.remove(key), queue: s.queue, next_handle: s.next_handle }
}

pub open spec fn forget_all_spec(s: LoaderView) -> LoaderView {
    LoaderView { entries: Map::empty(), queue: s.queue, next_handle: s.next_handle }
}

/// The registry after recording `size` for `key`; unchanged where `key`
/// has no entry.
pub open spec fn resolved(s: RegistryView, key: Seq<char>, size: ImageSize) -> RegistryView {
    if s.entries.contains_key(key) {
        let e = s.entries[key];
        RegistryView {
            entries: s.entries.insert(
                key,
                EntryView { ids: e.ids, image: e.image, size: Some(size) },
            ),
            next_handle: s.next_handle,
        }
    } else {
        s
    }
}

pub open spec fn resolve_spec(s: LoaderView, key: Seq<char>, size: ImageSize) -> LoaderView {
    resolved(s.registry(), key, size).with_queue(s.queue)
}

/// The (image, handle, variant) triples of the filled slots below `n`, in
/// increasing variant order.
pub open spec fn variants_upto(e: EntryView, n: int) -> Seq<(ImageId, u64, usize)>
    decreases n,
{
    if n <= 0 {
        Seq::empty()
    } else {
        let prev = variants_upto(e, n - 1);
        match e.ids[n - 1] {
            Some(h) => prev.push((e.image, h, (n - 1) as usize)),
            None => prev,
        }
    }
}

pub open spec fn variants_spec(s: RegistryView, key: Seq<char>) -> Seq<(ImageId, u64, usize)> {
    if s.entries.contains_key(key) {
        variants_upto(s.entries[key], VARIANT_COUNT as int)
    } else {
        Seq::empty()
    }
}

pub open spec fn queue_view(q: Seq<(String, ImageId)>) -> Seq<(Seq<char>, ImageId)> {
    q.map_values(|p: (String, ImageId)| record_view(p))
}

pub open spec fn record_view(p: (String, ImageId)) -> (Seq<char>, ImageId) {
    (p.0@, p.1)
}

pub open spec fn record_opt_view(o: Option<(String, ImageId)>) -> Option<(Seq<char>, ImageId)> {
    match o {
        Some(p) => Some(record_view(p)),
        None => None,
    }
}

impl LoaderEntry {
    /// The (image, handle, variant) triple of each filled slot, in increasing
    /// variant order.
    pub fn ids(&self) -> (r: Vec<(ImageId, u64, usize)>)
        ensures
            r@ == variants_upto(self@, VARIANT_COUNT as int),
    {
        let mut out: Vec<(ImageId, u64, usize)> = Vec::new();
        let mut i: usize = 0;
        while i < VARIANT_COUNT
            invariant
                i <= VARIANT_COUNT,
                out@ == variants_upto(self@, i as int),
            decreases VARIANT_COUNT - i,
        {
            match self.egui_ids[i] {
                Some(h) => out.push((self.bevy_id, h, i)),
                None => {},
            }
            i = i + 1;
        }
        out
    }
}

/// Entries by key, and the handle counter, which only grows.
pub struct EntryRegistry {
    keys: Vec<String>,
    entries: Vec<LoaderEntry>,
    user_id_counter: u64,
    model: Ghost<Map<Seq<char>, EntryView>>,
}

impl View for EntryRegistry {
    type V = RegistryView;

    closed spec fn view(&self) -> RegistryView {
        RegistryView { entries: self.model@, next_handle: self.user_id_counter as nat }
    }
}

impl EntryRegistry {
    /// The entries vector holds exactly the model, one position per key.
    pub closed spec fn wf(&self) -> bool {
        &&& self@.wf()
        &&& self.keys.len() == self.entries.len()
        &&& forall|i: int|
            0 <= i < self.keys.len() ==> #[trigger] self.model@.contains_key(self.keys@[i]@)
                && self.model@[self.keys@[i]@] == self.entries@[i]@
        &&& forall|k: Seq<char>| #[trigger]
            self.model@.contains_key(k) ==> exists|i: int|
                0 <= i < self.keys.len() && #[trigger] self.keys@[i]@ == k
        &&& forall|i: int, j: int|
            0 <= i < self.keys.len() && 0 <= j < self.keys.len() && i != j ==> #[trigger] self.keys@[i]@
                != #[trigger] self.keys@[j]@
    }

    /// An empty registry whose first handle is `0`.
    pub fn new() -> (r: EntryRegistry)
        ensures
            r.wf(),
            r@.entries == Map::<Seq<char>, EntryView>::empty(),
            r@.next_handle == 0,
    {
        EntryRegistry {
            keys: Vec::new(),
            entries: Vec::new(),
            user_id_counter: 0,
            model: Ghost(Map::empty()),
        }
    }

    /// The handle that the next minting gives.
    pub fn next_handle(&self) -> (r: u64)
        ensures
            r == self@.next_handle,
    {
        self.user_id_counter
    }

    /// Position of `key` in the entries, if it has one.
    fn find(&self, key: &str) -> (r: Option<usize>)
        requires
            self.wf(),
        ensures
            r is Some <==> self@.entries.contains_key(key@),
            r matches Some(i) ==> i < self.keys.len() && self.keys@[i as int]@ == key@,
    {
        let mut i: usize = 0;
        while i < self.keys.len()
            invariant
                self.wf(),
                i <= self.keys.len(),
                forall|j: int| 0 <= j < i ==> self.keys@[j]@ != key@,
            decreases self.keys.len() - i,
        {
            if same_text(self.keys[i].as_str(), key) {
                return Some(i);
            }
            i = i + 1;
        }
        None
    }

    /// Requests the handle of `uri` in the variant of `texture_options`.
    ///
    /// A key without this loader's scheme, or a new key whose payload does
    /// not parse, is `NotSupported` and changes nothing. Otherwise the
    /// variant's slot gets a fresh handle if it has none; a new key also
    /// gets an entry, and its (key, image) record is handed back for the
    /// queue. The answer is `Ready` with the slot's handle once the entry
    /// has a size, else `Pending`.
    pub fn request(&mut self, uri: &str, texture_options: TextureOptions) -> (r: (
        Result<TexturePoll, LoadError>,
        Option<(String, ImageId)>,
    ))
        requires
            old(self).wf(),
            old(self)@.next_handle < u64::MAX,
        ensures
            final(self).wf(),
            final(self)@ == request_spec(old(self)@, uri@, option_bits(texture_options)).0,
            r.0 == request_spec(old(self)@, uri@, option_bits(texture_options)).1,
            record_opt_view(r.1) == request_spec(
                old(self)@,
                uri@,
                option_bits(texture_options),
            ).2,
    {
        proof {
            reveal_strlit("bevy://");
            assert("bevy://"@ =~= scheme());
        }
        if strip_prefix(uri, "bevy://").is_none() {
            return (Err(LoadError::NotSupported), None);
        }
        let key = texture_option_bits(texture_options);
        let ghost s0 = self@;
        match self.find(uri) {
            Some(i) => {
                let mut entry = self.entries[i];
                let handle = match entry.egui_ids[key] {
                    Some(h) => h,
                    None => {
                        let h = self.user_id_counter;
                        self.user_id_counter = h + 1;
                        entry.egui_ids.set(key, Some(h));
                        h
                    },
                };
                assert(entry@.ids =~= s0.entries[uri@].ids.update(key as int, Some(handle)));
                self.entries.set(i, entry);
                self.model = Ghost(self.model@.insert(uri@, entry@));
                proof {
                    let s1 = self@;
                    assert forall|k1: Seq<char>, i1: int, k2: Seq<char>, i2: int|
                        s1.entries.contains_key(k1) && s1.entries.contains_key(k2) && 0 <= i1
                            < VARIANT_COUNT && 0 <= i2 < VARIANT_COUNT && (
                        #[trigger] s1.entries[k1].ids[i1]) is Some && s1.entries[k1].ids[i1]
                            == #[trigger] s1.entries[k2].ids[i2] implies k1 == k2 && i1 == i2 by {
                        if k1 == uri@ && i1 == key as int {
                            if !(k2 == uri@ && i2 == key as int) {
                                assert(s0.entries[k2].ids[i2] == s1.entries[k2].ids[i2]);
                            }
                        } else if k2 == uri@ && i2 == key as int {
                            assert(s0.entries[k1].ids[i1] == s1.entries[k1].ids[i1]);
                        } else {
                            assert(s0.entries[k1].ids[i1] == s1.entries[k1].ids[i1]);
                            assert(s0.entries[k2].ids[i2] == s1.entries[k2].ids[i2]);
                        }
                    }
                    assert forall|j: int| 0 <= j < self.keys.len() implies #[trigger]
                        self.model@.contains_key(self.keys@[j]@) && self.model@[self.keys@[j]@]
                            == self.entries@[j]@ by {
                        if j != i {
                            assert(self.keys@[j]@ != self.keys@[i as int]@);
                            assert(self.entries@[j] == old(self).entries@[j]);
                            assert(old(self).model@.contains_key(old(self).keys@[j]@));
                        }
                    }
                    assert(s1.entries =~= request_spec(s0, uri@, key as int).0.entries);
                }
                match entry.size {
                    Some(size) => (Ok(TexturePoll::Ready { handle, size }), None),
                    None => (Ok(TexturePoll::Pending), None),
                }
            },
            None => {
                let bevy_id = match ImageId::from_key(uri) {
                    Ok(id) => id,
                    Err(e) => {
                        return (Err(e), None);
                    },
                };
                let mut egui_ids: [Option<u64>; 12] = [
                    None,
                    None,
                    None,
                    None,
                    None,
                    None,
                    None,
                    None,
                    None,
                    None,
                    None,
                    None,
                ];
                assert(egui_ids@ =~= no_ids());
                let h = self.user_id_counter;
                self.user_id_counter = h + 1;
                egui_ids.set(key, Some(h));
                let entry = LoaderEntry { egui_ids, bevy_id, size: None };
                let ghost n = self.keys.len() as int;
                self.keys.push(String::from_str(uri));
                self.entries.push(entry);
                self.model = Ghost(self.model@.insert(uri@, entry@));
                proof {
                    let s1 = self@;
                    assert forall|k1: Seq<char>, i1: int, k2: Seq<char>, i2: int|
                        s1.entries.contains_key(k1) && s1.entries.contains_key(k2) && 0 <= i1
                            < VARIANT_COUNT && 0 <= i2 < VARIANT_COUNT && (
                        #[trigger] s1.entries[k1].ids[i1]) is Some && s1.entries[k1].ids[i1]
                            == #[trigger] s1.entries[k2].ids[i2] implies k1 == k2 && i1 == i2 by {
                        if k1 == uri@ {
                            if k2 != uri@ {
                                assert(s0.entries[k2].ids[i2] == s1.entries[k2].ids[i2]);
                            }
                        } else if k2 == uri@ {
                            assert(s0.entries[k1].ids[i1] == s1.entries[k1].ids[i1]);
                        } else {
                            assert(s0.entries[k1].ids[i1] == s1.entries[k1].ids[i1]);
                            assert(s0.entries[k2].ids[i2] == s1.entries[k2].ids[i2]);
                        }
                    }
                    assert forall|j: int| 0 <= j < self.keys.len() implies #[trigger]
                        self.model@.contains_key(self.keys@[j]@) && self.model@[self.keys@[j]@]
                            == self.entries@[j]@ by {
                        if j < n {
                            assert(self.keys@[j] == old(self).keys@[j]);
                            assert(self.entries@[j] == old(self).entries@[j]);
                            assert(old(self).model@.contains_key(old(self).keys@[j]@));
                        }
                    }
                    assert forall|k: Seq<char>| #[trigger]
                        self.model@.contains_key(k) implies exists|j: int|
                            0 <= j < self.keys.len() && #[trigger] self.keys@[j]@ == k by {
                        if k == uri@ {
                            assert(self.keys@[n]@ == k);
                        } else {
                            assert(old(self).model@.contains_key(k));
                            let j = choose|j: int|
                                0 <= j < old(self).keys.len() && #[trigger] old(self).keys@[j]@ == k;
                            assert(self.keys@[j] == old(self).keys@[j]);
                        }
                    }
                    assert forall|a: int, b: int|
                        0 <= a < self.keys.len() && 0 <= b < self.keys.len() && a != b implies #[trigger] self.keys@[a]@
                            != #[trigger] self.keys@[b]@ by {
                        if a == n {
                            assert(self.keys@[b] == old(self).keys@[b]);
                            assert(old(self).model@.contains_key(old(self).keys@[b]@));
                        } else if b == n {
                            assert(self.keys@[a] == old(self).keys@[a]);
                            assert(old(self).model@.contains_key(old(self).keys@[a]@));
                        } else {
                            assert(self.keys@[a] == old(self).keys@[a]);
                            assert(self.keys@[b] == old(self).keys@[b]);
                        }
                    }
                    assert(s1.entries =~= request_spec(s0, uri@, key as int).0.entries);
                }
                (Ok(TexturePoll::Pending), Some((String::from_str(uri), bevy_id)))
            },
        }
    }

    /// Drops the entry of `uri`, if there is one. Minted handles are not
    /// reused.
    pub fn forget(&mut self, uri: &str)
        requires
            old(self).wf(),
        ensures
            final(self).wf(),
            final(self)@ == (RegistryView {
                entries: old(self)@.entries.remove(uri@),
                next_handle: old(self)@.next_handle,
            }),
    {
        let ghost s0 = self@;
        match self.find(uri) {
            Some(i) => {
                let ghost keys0 = self.keys@;
                self.keys.remove(i);
                self.entries.remove(i);
                self.model = Ghost(self.model@.remove(uri@));
                proof {
                    let s1 = self@;
                    assert(s1.entries =~= s0.entries.remove(uri@));
                    assert forall|j: int| 0 <= j < self.keys.len() implies #[trigger]
                        self.model@.contains_key(self.keys@[j]@) && self.model@[self.keys@[j]@]
                            == self.entries@[j]@ by {
                        if j < i {
                            assert(self.keys@[j] == keys0[j]);
                            assert(keys0[j]@ != keys0[i as int]@);
                        } else {
                            assert(self.keys@[j] == keys0[j + 1]);
                            assert(keys0[j + 1]@ != keys0[i as int]@);
                        }
                    }
                    assert forall|k: Seq<char>| #[trigger]
                        self.model@.contains_key(k) implies exists|j: int|
                            0 <= j < self.keys.len() && #[trigger] self.keys@[j]@ == k by {
                        let j = choose|j: int| 0 <= j < keys0.len() && #[trigger] keys0[j]@ == k;
                        if j < i {
                            assert(self.keys@[j]@ == k);
                        } else {
                            assert(j != i);
                            assert(self.keys@[j - 1]@ == k);
                        }
                    }
                    assert forall|a: int, b: int|
                        0 <= a < self.keys.len() && 0 <= b < self.keys.len() && a != b implies #[trigger] self.keys@[a]@
                            != #[trigger] self.keys@[b]@ by {
                        let a0 = if a < i { a } else { a + 1 };
                        let b0 = if b < i { b } else { b + 1 };
                        assert(self.keys@[a] == keys0[a0]);
                        assert(self.keys@[b] == keys0[b0]);
                    }
                }
            },
            None => {
                assert(self@.entries =~= s0.entries.remove(uri@));
            },
        }
    }

    /// Drops every entry. The handle counter is kept, so no handle minted
    /// before is minted again.
    pub fn forget_all(&mut self)
        requires
            old(self).wf(),
        ensures
            final(self).wf(),
            final(self)@ == (RegistryView {
                entries: Map::empty(),
                next_handle: old(self)@.next_handle,
            }),
    {
        self.keys.clear();
        self.entries.clear();
        self.model = Ghost(Map::empty());
    }

    /// Records the decoded size of `uri`; does nothing where the entry was
    /// forgotten meanwhile.
    pub fn resolve(&mut self, uri: &str, size: ImageSize)
        requires
            old(self).wf(),
        ensures
            final(self).wf(),
            final(self)@ == resolved(old(self)@, uri@, size),
    {
        let ghost s0 = self@;
        match self.find(uri) {
            Some(i) => {
                let mut entry = self.entries[i];
                entry.size = Some(size);
                self.entries.set(i, entry);
                self.model = Ghost(self.model@.insert(uri@, entry@));
                proof {
                    let s1 = self@;
                    assert(s1.entries =~= resolved(s0, uri@, size).entries);
                    assert forall|k1: Seq<char>, i1: int, k2: Seq<char>, i2: int|
                        s1.entries.contains_key(k1) && s1.entries.contains_key(k2) && 0 <= i1
                            < VARIANT_COUNT && 0 <= i2 < VARIANT_COUNT && (
                        #[trigger] s1.entries[k1].ids[i1]) is Some && s1.entries[k1].ids[i1]
                            == #[trigger] s1.entries[k2].ids[i2] implies k1 == k2 && i1 == i2 by {
                        assert(s0.entries[k1].ids[i1] == s1.entries[k1].ids[i1]);
                        assert(s0.entries[k2].ids[i2] == s1.entries[k2].ids[i2]);
                    }
                    assert forall|j: int| 0 <= j < self.keys.len() implies #[trigger]
                        self.model@.contains_key(self.keys@[j]@) && self.model@[self.keys@[j]@]
                            == self.entries@[j]@ by {
                        if j != i {
                            assert(self.keys@[j]@ != self.keys@[i as int]@);
                            assert(self.entries@[j] == old(self).entries@[j]);
                            assert(old(self).model@.contains_key(old(self).keys@[j]@));
                        }
                    }
                }
            },
            None => {},
        }
    }

    /// The (image, handle, variant) triple of each filled slot of `uri`,
    /// in increasing variant order; empty where `uri` has no entry.
    pub fn variants_of(&self, uri: &str) -> (r: Vec<(ImageId, u64, usize)>)
        requires
            self.wf(),
        ensures
            r@ == variants_spec(self@, uri@),
    {
        match self.find(uri) {
            Some(i) => self.entries[i].ids(),
            None => Vec::new(),
        }
    }
}

/// Records of keys seen for the first time, oldest first, until the decode
/// backend takes them.
pub struct RegistrationQueue {
    new: Vec<(String, ImageId)>,
}

impl View for RegistrationQueue {
    type V = Seq<(Seq<char>, ImageId)>;

    closed spec fn view(&self) -> Seq<(Seq<char>, ImageId)> {
        queue_view(self.new@)
    }
}

impl RegistrationQueue {
    pub fn new() -> (r: RegistrationQueue)
        ensures
            r@ == Seq::<(Seq<char>, ImageId)>::empty(),
    {
        let r = RegistrationQueue { new: Vec::new() };
        assert(queue_view(r.new@) =~= Seq::<(Seq<char>, ImageId)>::empty());
        r
    }

    /// Puts `record` at the end.
    pub fn push(&mut self, record: (String, ImageId))
        ensures
            final(self)@ == old(self)@.push(record_view(record)),
    {
        self.new.push(record);
        assert(queue_view(self.new@) =~= queue_view(old(self).new@).push(record_view(record)));
    }

    /// Empties the queue and hands its records over, oldest first.
    pub fn drain(&mut self) -> (r: Vec<(String, ImageId)>)
        ensures
            queue_view(r@) == old(self)@,
            final(self)@ == Seq::<(Seq<char>, ImageId)>::empty(),
    {
        let mut out: Vec<(String, ImageId)> = Vec::new();
        std::mem::swap(&mut out, &mut self.new);
        assert(queue_view(self.new@) =~= Seq::<(Seq<char>, ImageId)>::empty());
        out
    }
}

/// The cache: the entry registry and the queue of first-seen keys, each of
/// which a concurrent host can keep behind a lock of its own.
pub struct BevyTextureLoader {
    map: EntryRegistry,
    new: RegistrationQueue,
}

impl View for BevyTextureLoader {
    type V = LoaderView;

    closed spec fn view(&self) -> LoaderView {
        self.map@.with_queue(self.new@)
    }
}

impl BevyTextureLoader {
    pub closed spec fn wf(&self) -> bool {
        self.map.wf()
    }

    /// An empty cache whose first handle is `0`.
    pub fn new() -> (r: BevyTextureLoader)
        ensures
            r.wf(),
            r@.entries == Map::<Seq<char>, EntryView>::empty(),
            r@.queue == Seq::<(Seq<char>, ImageId)>::empty(),
            r@.next_handle == 0,
    {
        BevyTextureLoader { map: EntryRegistry::new(), new: RegistrationQueue::new() }
    }

    /// The handle that the next minting gives.
    pub fn next_handle(&self) -> (r: u64)
        ensures
            r == self@.next_handle,
    {
        self.map.next_handle()
    }

    /// Requests the handle of `uri` in the variant of `texture_options`:
    /// the registry's request, whose record, for a key seen for the first
    /// time, goes to the end of the queue.
    pub fn load(&mut self, uri: &str, texture_options: TextureOptions) -> (r: Result<
        TexturePoll,
        LoadError,
    >)
        requires
            old(self).wf(),
            old(self)@.next_handle < u64::MAX,
        ensures
            final(self).wf(),
            (final(self)@, r) == load_spec(old(self)@, uri@, option_bits(texture_options)),
    {
        let (r, record) = self.map.request(uri, texture_options);
        match record {
            Some(record) => self.new.push(record),
            None => {},
        }
        r
    }

    /// Drops the entry of `uri`, if there is one.
    pub fn forget(&mut self, uri: &str)
        requires
            old(self).wf(),
        ensures
            final(self).wf(),
            final(self)@ == forget_spec(old(self)@, uri@),
    {
        self.map.forget(uri);
    }

    /// Drops every entry; the handle counter and the queue are kept.
    pub fn forget_all(&mut self)
        requires
            old(self).wf(),
        ensures
            final(self).wf(),
            final(self)@ == forget_all_spec(old(self)@),
    {
        self.map.forget_all();
    }

    /// Records the decoded size of `uri`; does nothing where the entry was
    /// forgotten meanwhile.
    pub fn resolve(&mut self, uri: &str, size: ImageSize)
        requires
            old(self).wf(),
        ensures
            final(self).wf(),
            final(self)@ == resolve_spec(old(self)@, uri@, size),
    {
        self.map.resolve(uri, size);
    }

    /// Empties the queue of first-seen keys and hands its records over,
    /// oldest first.
    pub fn drain_registrations(&mut self) -> (r: Vec<(String, ImageId)>)
        requires
            old(self).wf(),
        ensures
            final(self).wf(),
            queue_view(r@) == old(self)@.queue,
            final(self)@ == old(self)@.registry().with_queue(Seq::empty()),
    {
        self.new.drain()
    }

    /// The (image, handle, variant) triple of each filled slot of `uri`,
    /// in increasing variant order; empty where `uri` has no entry.
    pub fn variants_of(&self, uri: &str) -> (r: Vec<(ImageId, u64, usize)>)
        requires
            self.wf(),
        ensures
            r@ == variants_spec(self@.registry(), uri@),
    {
        self.map.variants_of(uri)
    }
}

} // verus!
