use vstd::prelude::*;

verus! {

/// The sentinel byte that fills a freshly allocated buffer.
pub const SENTINEL: u8 = 0xFF;

/// A buffer of `n` sentinel bytes.
pub open spec fn filled(n: nat) -> Seq<u8> {
    Seq::new(n, |i: int| SENTINEL)
}

/// No key occurs twice among the entries.
pub open spec fn keys_unique(s: Seq<(String, Vec<u8>)>) -> bool {
    forall|i: int, j: int|
        0 <= i < s.len() && 0 <= j < s.len() && (#[trigger] s[i]).0@ == (#[trigger] s[j]).0@
            ==> i == j
}

/// Whether some entry is stored under `k`.
pub open spec fn has_key(s: Seq<(String, Vec<u8>)>, k: Seq<char>) -> bool {
    exists|i: int| 0 <= i < s.len() && (#[trigger] s[i]).0@ == k
}

/// The map from keys to buffer contents that the entries describe.
pub open spec fn map_of(s: Seq<(String, Vec<u8>)>) -> Map<Seq<char>, Seq<u8>> {
    Map::new(
        |k: Seq<char>| has_key(s, k),
        |k: Seq<char>| s[choose|i: int| 0 <= i < s.len() && (#[trigger] s[i]).0@ == k].1@,
    )
}

/// The arena after `allocate(k, n)`: a fresh buffer of `n` sentinel bytes under `k`,
/// in place of whatever `k` held before.
pub open spec fn spec_allocate(m: Map<Seq<char>, Seq<u8>>, k: Seq<char>, n: nat) -> Map<
    Seq<char>,
    Seq<u8>,
> {
    m.insert(k, filled(n))
}

/// What `lookup(k)` finds: the buffer under `k`, or nothing.
pub open spec fn spec_lookup(m: Map<Seq<char>, Seq<u8>>, k: Seq<char>) -> Option<Seq<u8>> {
    if m.contains_key(k) {
        Some(m[k])
    } else {
        None
    }
}

/// The arena after `release(k)`.
pub open spec fn spec_release(m: Map<Seq<char>, Seq<u8>>, k: Seq<char>) -> Map<Seq<char>, Seq<u8>> {
    m.remove(k)
}

/// `b` with the bytes from `offset` on replaced by `d`.
pub open spec fn splice(b: Seq<u8>, offset: int, d: Seq<u8>) -> Seq<u8> {
    Seq::new(b.len(), |p: int| if offset <= p < offset + d.len() { d[p - offset] } else { b[p] })
}

/// Whether `d` fits into the buffer under `k` from `offset` on.
pub open spec fn write_fits(m: Map<Seq<char>, Seq<u8>>, k: Seq<char>, offset: int, d: Seq<u8>) -> bool {
    m.contains_key(k) && 0 <= offset && offset + d.len() <= m[k].len()
}

/// The arena after writing `d` into the buffer under `k` from `offset` on; unchanged
/// where the write does not fit.
pub open spec fn spec_write(m: Map<Seq<char>, Seq<u8>>, k: Seq<char>, offset: int, d: Seq<u8>) -> Map<
    Seq<char>,
    Seq<u8>,
> {
    if write_fits(m, k, offset, d) {
        m.insert(k, splice(m[k], offset, d))
    } else {
        m
    }
}

/// A keyed collection of byte buffers. Each key names at most one buffer.
pub struct BufferStorage {
    entries: Vec<(String, Vec<u8>)>,
}

impl View for BufferStorage {
    type V = Map<Seq<char>, Seq<u8>>;

    closed spec fn view(&self) -> Map<Seq<char>, Seq<u8>> {
        map_of(self.entries@)
    }
}

/// The entry at `i` is what the map holds under its key.
proof fn lemma_map_at(s: Seq<(String, Vec<u8>)>, i: int)
    requires
        keys_unique(s),
        0 <= i < s.len(),
    ensures
        map_of(s).contains_key(s[i].0@),
        map_of(s)[s[i].0@] == s[i].1@,
{
    let k = s[i].0@;
    assert(has_key(s, k));
    let j = choose|j: int| 0 <= j < s.len() && (#[trigger] s[j]).0@ == k;
    assert(s[j].0@ == s[i].0@);
}

/// Replacing the buffer of an entry keeps the keys unique and updates the map.
proof fn lemma_update(s: Seq<(String, Vec<u8>)>, i: int, e: (String, Vec<u8>))
    requires
        keys_unique(s),
        0 <= i < s.len(),
        e.0@ == s[i].0@,
    ensures
        keys_unique(s.update(i, e)),
        map_of(s.update(i, e)) =~= map_of(s).insert(e.0@, e.1@),
{
    let t = s.update(i, e);
    assert forall|a: int, b: int|
        0 <= a < t.len() && 0 <= b < t.len() && (#[trigger] t[a]).0@ == (#[trigger] t[b]).0@
        implies a == b by {
        assert(t[a].0@ == s[a].0@ && t[b].0@ == s[b].0@);
        assert(s[a].0@ == s[b].0@);
    }
    assert forall|k: Seq<char>| has_key(t, k) <==> (k == e.0@ || has_key(s, k)) by {
        if has_key(s, k) {
            let j = choose|j: int| 0 <= j < s.len() && (#[trigger] s[j]).0@ == k;
            assert(t[j].0@ == k);
        }
        if has_key(t, k) {
            let j = choose|j: int| 0 <= j < t.len() && (#[trigger] t[j]).0@ == k;
            assert(s[j].0@ == k);
        }
    }
    assert forall|k: Seq<char>| #[trigger] map_of(t).contains_key(k) && k != e.0@
        implies map_of(t)[k] == map_of(s)[k] by {
        let j = choose|j: int| 0 <= j < t.len() && (#[trigger] t[j]).0@ == k;
        lemma_map_at(t, j);
        lemma_map_at(s, j);
    }
    assert(t[i] == e);
    lemma_map_at(t, i);
}

/// Appending an entry under a new key keeps the keys unique and adds it to the map.
proof fn lemma_push(s: Seq<(String, Vec<u8>)>, e: (String, Vec<u8>))
    requires
        keys_unique(s),
        !has_key(s, e.0@),
    ensures
        keys_unique(s.push(e)),
        map_of(s.push(e)) =~= map_of(s).insert(e.0@, e.1@),
{
    let t = s.push(e);
    let n = s.len() as int;
    assert forall|a: int, b: int|
        0 <= a < t.len() && 0 <= b < t.len() && (#[trigger] t[a]).0@ == (#[trigger] t[b]).0@
        implies a == b by {
        if a < n && b < n {
            assert(s[a].0@ == s[b].0@);
        } else if a < n {
            assert(s[a].0@ == e.0@);
        } else if b < n {
            assert(s[b].0@ == e.0@);
        }
    }
    assert forall|k: Seq<char>| has_key(t, k) <==> (k == e.0@ || has_key(s, k)) by {
        if has_key(s, k) {
            let j = choose|j: int| 0 <= j < s.len() && (#[trigger] s[j]).0@ == k;
            assert(t[j].0@ == k);
        }
        if has_key(t, k) {
            let j = choose|j: int| 0 <= j < t.len() && (#[trigger] t[j]).0@ == k;
            if j < n {
                assert(s[j].0@ == k);
            }
        }
        if k == e.0@ {
            assert(t[n].0@ == k);
        }
    }
    assert forall|k: Seq<char>| #[trigger] map_of(t).contains_key(k) && k != e.0@
        implies map_of(t)[k] == map_of(s)[k] by {
        let j = choose|j: int| 0 <= j < t.len() && (#[trigger] t[j]).0@ == k;
        assert(j < n);
        assert(t[j] == s[j]);
        lemma_map_at(t, j);
        lemma_map_at(s, j);
    }
    assert(t[n] == e);
    lemma_map_at(t, n);
}

/// Removing an entry keeps the keys unique and drops its key from the map.
proof fn lemma_remove(s: Seq<(String, Vec<u8>)>, i: int)
    requires
        keys_unique(s),
        0 <= i < s.len(),
    ensures
        keys_unique(s.remove(i)),
        map_of(s.remove(i)) =~= map_of(s).remove(s[i].0@),
{
    let t = s.remove(i);
    let k0 = s[i].0@;
    assert forall|a: int, b: int|
        0 <= a < t.len() && 0 <= b < t.len() && (#[trigger] t[a]).0@ == (#[trigger] t[b]).0@
        implies a == b by {
        let a2 = if a < i { a } else { a + 1 };
        let b2 = if b < i { b } else { b + 1 };
        assert(t[a] == s[a2] && t[b] == s[b2]);
        assert(s[a2].0@ == s[b2].0@);
    }
    assert forall|k: Seq<char>| has_key(t, k) <==> (k != k0 && has_key(s, k)) by {
        if has_key(s, k) && k != k0 {
            let j = choose|j: int| 0 <= j < s.len() && (#[trigger] s[j]).0@ == k;
            if j < i {
                assert(t[j] == s[j]);
            } else {
                assert(j != i);
                assert(t[j - 1] == s[j]);
            }
        }
        if has_key(t, k) {
            let j = choose|j: int| 0 <= j < t.len() && (#[trigger] t[j]).0@ == k;
            let j2 = if j < i { j } else { j + 1 };
            assert(t[j] == s[j2]);
            assert(j2 != i);
        }
    }
    assert forall|k: Seq<char>| #[trigger] map_of(t).contains_key(k)
        implies map_of(t)[k] == map_of(s)[k] by {
        let j = choose|j: int| 0 <= j < t.len() && (#[trigger] t[j]).0@ == k;
        let j2 = if j < i { j } else { j + 1 };
        assert(t[j] == s[j2]);
        lemma_map_at(t, j);
        lemma_map_at(s, j2);
    }
}

impl BufferStorage {
    /// The entries hold each key at most once.
    pub closed spec fn wf(&self) -> bool {
        keys_unique(self.entries@)
    }

    /// An empty arena.
    pub fn new() -> (r: BufferStorage)
        ensures
            r.wf(),
            r@ == Map::<Seq<char>, Seq<u8>>::empty(),
    {
        let r = BufferStorage { entries: Vec::new() };
        assert(r@ =~= Map::<Seq<char>, Seq<u8>>::empty());
        r
    }

    /// The position of the entry stored under `key`, if there is one.
    fn find(&self, key: &String) -> (r: Option<usize>)
        requires
            self.wf(),
        ensures
            match r {
                Some(i) => i < self.entries@.len() && self.entries@[i as int].0@ == key@,
                None => !has_key(self.entries@, key@),
            },
    {
        let mut i: usize = 0;
        while i < self.entries.len()
            invariant
                i <= self.entries@.len(),
                forall|j: int| 0 <= j < i ==> (#[trigger] self.entries@[j]).0@ != key@,
            decreases self.entries@.len() - i,
        {
            if self.entries[i].0 == *key {
                return Some(i);
            }
            i = i + 1;
        }
        None
    }
}

/// Creates a buffer of `len` sentinel bytes under `key`. A buffer that `key` held
/// before is dropped; no byte of it carries over.
pub fn new_buffer(storage: &mut BufferStorage, key: String, len: usize)
    requires
        old(storage).wf(),
    ensures
        final(storage).wf(),
        final(storage)@ == spec_allocate(old(storage)@, key@, len as nat),
{
    let buffer: Vec<u8> = vec![SENTINEL; len];
    assert(buffer@ =~= filled(len as nat));
    let ghost k = key@;
    let ghost s = storage.entries@;
    match storage.find(&key) {
        Some(i) => {
            proof {
                lemma_update(s, i as int, (key, buffer));
            }
            storage.entries.set(i, (key, buffer));
        },
        None => {
            proof {
                lemma_push(s, (key, buffer));
            }
            storage.entries.push((key, buffer));
        },
    }
}

/// The buffer stored under `key`, or `None` where there is none.
pub fn get_buffer<'a>(storage: &'a BufferStorage, key: &String) -> (r: Option<&'a Vec<u8>>)
    requires
        storage.wf(),
    ensures
        match r {
            Some(b) => spec_lookup(storage@, key@) == Some(b@),
            None => spec_lookup(storage@, key@) == None::<Seq<u8>>,
        },
{
    match storage.find(key) {
        Some(i) => {
            proof {
                lemma_map_at(storage.entries@, i as int);
            }
            Some(&storage.entries[i].1)
        },
        None => None,
    }
}

/// Removes the buffer stored under `key`; returns whether there was one. Removing an
/// absent key changes nothing.
pub fn remove_buffer(storage: &mut BufferStorage, key: &String) -> (r: bool)
    requires
        old(storage).wf(),
    ensures
        final(storage).wf(),
        r == old(storage)@.contains_key(key@),
        final(storage)@ == spec_release(old(storage)@, key@),
{
    let ghost s = storage.entries@;
    match storage.find(key) {
        Some(i) => {
            proof {
                lemma_map_at(s, i as int);
                lemma_remove(s, i as int);
            }
            let _ = storage.entries.remove(i);
            true
        },
        None => {
            assert(storage@ =~= storage@.remove(key@));
            false
        },
    }
}

/// Copies `data` into the buffer under `key` from byte `offset` on, leaving the
/// other bytes as they were. Returns false, changing nothing, where there is no
/// such buffer or `data` does not fit into it there.
pub fn write_buffer(storage: &mut BufferStorage, key: &String, offset: usize, data: &[u8]) -> (r: bool)
    requires
        old(storage).wf(),
    ensures
        final(storage).wf(),
        r == write_fits(old(storage)@, key@, offset as int, data@),
        final(storage)@ == spec_write(old(storage)@, key@, offset as int, data@),
{
    let ghost s = storage.entries@;
    match storage.find(key) {
        None => false,
        Some(i) => {
            proof {
                lemma_map_at(s, i as int);
            }
            let len = storage.entries[i].1.len();
            if data.len() > len || offset > len - data.len() {
                return false;
            }
            let (k, mut buf) = storage.entries.remove(i);
            let ghost orig = buf@;
            let mut j: usize = 0;
            while j < data.len()
                invariant
                    j <= data@.len(),
                    offset + data@.len() <= len,
                    len == orig.len(),
                    buf@.len() == orig.len(),
                    forall|p: int|
                        0 <= p < orig.len() ==> #[trigger] buf@[p] == if offset <= p < offset + j {
                            data@[p - offset]
                        } else {
                            orig[p]
                        },
                decreases data@.len() - j,
            {
                buf.set(offset + j, data[j]);
                j = j + 1;
            }
            assert(buf@ =~= splice(orig, offset as int, data@));
            storage.entries.insert(i, (k, buf));
            proof {
                assert(storage.entries@ =~= s.update(i as int, (k, buf)));
                lemma_update(s, i as int, (k, buf));
            }
            true
        },
    }
}

} // verus!
