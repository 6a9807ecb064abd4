//! The backend abstraction: a flat object namespace addressed by string
//! paths, offering read / write / append / stat / delete. Two instances are
//! wired into the registry, one as the durable primary store and one as the
//! scratch cache. A backend is modelled as a map from paths to byte strings.

use vstd::prelude::*;

use crate::error::StorageError;

verus! {

pub struct Object {
    pub path: String,
    pub data: Vec<u8>,
}

/// The map described by a sequence of objects; later entries win.
pub open spec fn map_of(objs: Seq<Object>) -> Map<Seq<char>, Seq<u8>>
    decreases objs.len(),
{
    if objs.len() == 0 {
        Map::empty()
    } else {
        map_of(objs.drop_last()).insert(objs.last().path@, objs.last().data@)
    }
}

pub open spec fn distinct_paths(objs: Seq<Object>) -> bool {
    forall|i: int, j: int| 0 <= i < j < objs.len() ==> objs[i].path@ != objs[j].path@
}

proof fn lemma_distinct_drop_last(objs: Seq<Object>)
    requires
        distinct_paths(objs),
        objs.len() > 0,
    ensures
        distinct_paths(objs.drop_last()),
{
    assert forall|i: int, j: int|
        0 <= i < j < objs.drop_last().len() implies objs.drop_last()[i].path@
        != objs.drop_last()[j].path@ by {
        assert(objs[i].path@ != objs[j].path@);
    }
}

proof fn lemma_map_of_contains(objs: Seq<Object>, k: Seq<char>)
    ensures
        map_of(objs).contains_key(k) <==> exists|i: int|
            0 <= i < objs.len() && objs[i].path@ == k,
    decreases objs.len(),
{
    if objs.len() > 0 {
        let dl = objs.drop_last();
        lemma_map_of_contains(dl, k);
        if objs.last().path@ == k {
            assert(objs[objs.len() - 1].path@ == k);
        } else {
            if exists|i: int| 0 <= i < objs.len() && objs[i].path@ == k {
                let i = choose|i: int| 0 <= i < objs.len() && objs[i].path@ == k;
                assert(dl[i].path@ == k);
            }
            if exists|i: int| 0 <= i < dl.len() && dl[i].path@ == k {
                let i = choose|i: int| 0 <= i < dl.len() && dl[i].path@ == k;
                assert(objs[i].path@ == k);
            }
        }
    }
}

proof fn lemma_map_of_get(objs: Seq<Object>, i: int)
    requires
        distinct_paths(objs),
        0 <= i < objs.len(),
    ensures
        map_of(objs).contains_key(objs[i].path@),
        map_of(objs)[objs[i].path@] == objs[i].data@,
    decreases objs.len(),
{
    lemma_distinct_drop_last(objs);
    if i < objs.len() - 1 {
        lemma_map_of_get(objs.drop_last(), i);
        assert(objs.last().path@ != objs[i].path@);
    }
}

proof fn lemma_map_of_update(objs: Seq<Object>, i: int, o: Object)
    requires
        distinct_paths(objs),
        0 <= i < objs.len(),
        o.path@ == objs[i].path@,
    ensures
        map_of(objs.update(i, o)) =~= map_of(objs).insert(o.path@, o.data@),
    decreases objs.len(),
{
    lemma_distinct_drop_last(objs);
    let u = objs.update(i, o);
    if i == objs.len() - 1 {
        assert(u.drop_last() =~= objs.drop_last());
        assert(u.last() == o);
    } else {
        lemma_map_of_update(objs.drop_last(), i, o);
        assert(u.drop_last() =~= objs.drop_last().update(i, o));
        assert(u.last() == objs.last());
        assert(objs.last().path@ != o.path@);
    }
}

proof fn lemma_map_of_remove(objs: Seq<Object>, i: int)
    requires
        distinct_paths(objs),
        0 <= i < objs.len(),
    ensures
        map_of(objs.remove(i)) =~= map_of(objs).remove(objs[i].path@),
    decreases objs.len(),
{
    lemma_distinct_drop_last(objs);
    let r = objs.remove(i);
    if i == objs.len() - 1 {
        assert(r =~= objs.drop_last());
        lemma_map_of_contains(objs.drop_last(), objs.last().path@);
        assert(!map_of(objs.drop_last()).contains_key(objs.last().path@));
    } else {
        lemma_map_of_remove(objs.drop_last(), i);
        assert(r.drop_last() =~= objs.drop_last().remove(i));
        assert(r.last() == objs.last());
        assert(objs.last().path@ != objs[i].path@);
    }
}

proof fn lemma_map_of_push(objs: Seq<Object>, o: Object)
    ensures
        map_of(objs.push(o)) =~= map_of(objs).insert(o.path@, o.data@),
{
    assert(objs.push(o).drop_last() =~= objs);
    assert(objs.push(o).last() == o);
}

/// A flat object store: the durable primary backend and the scratch cache
/// are both instances of this shape.
pub struct Backend {
    objects: Vec<Object>,
}

impl View for Backend {
    type V = Map<Seq<char>, Seq<u8>>;

    closed spec fn view(&self) -> Map<Seq<char>, Seq<u8>> {
        map_of(self.objects@)
    }
}

pub fn clone_bytes(v: &Vec<u8>) -> (r: Vec<u8>)
    ensures
        r@ == v@,
{
    let mut r: Vec<u8> = Vec::new();
    let mut i: usize = 0;
    while i < v.len()
        invariant
            i <= v@.len(),
            r@ =~= v@.take(i as int),
        decreases v@.len() - i,
    {
        r.push(v[i]);
        assert(r@ =~= v@.take(i + 1 as int));
        i += 1;
    }
    assert(r@ =~= v@);
    r
}

impl Backend {
    pub closed spec fn wf(&self) -> bool {
        distinct_paths(self.objects@)
    }

    pub fn new() -> (r: Backend)
        ensures
            r.wf(),
            r@ == Map::<Seq<char>, Seq<u8>>::empty(),
    {
        Backend { objects: Vec::new() }
    }

    fn find(&self, p: &String) -> (r: Option<usize>)
        ensures
            match r {
                Some(i) => i < self.objects@.len() && self.objects@[i as int].path@ == p@,
                None => !self@.contains_key(p@),
            },
    {
        proof {
            lemma_map_of_contains(self.objects@, p@);
        }
        let mut i: usize = 0;
        while i < self.objects.len()
            invariant
                i <= self.objects@.len(),
                forall|j: int| 0 <= j < i ==> self.objects@[j].path@ != p@,
            decreases self.objects@.len() - i,
        {
            if self.objects[i].path == *p {
                return Some(i);
            }
            i += 1;
        }
        None
    }

    /// `read(p)`: the object's bytes, or `ContentNotFound`.
    pub fn read(&self, p: &String) -> (r: Result<Vec<u8>, StorageError>)
        requires
            self.wf(),
        ensures
            match r {
                Ok(d) => self@.contains_key(p@) && d@ == self@[p@],
                Err(e) => e == StorageError::ContentNotFound && !self@.contains_key(p@),
            },
    {
        match self.find(p) {
            Some(i) => {
                proof {
                    lemma_map_of_get(self.objects@, i as int);
                }
                Ok(clone_bytes(&self.objects[i].data))
            }
            None => Err(StorageError::ContentNotFound),
        }
    }

    /// `stat(p)`: the object's length, or `ContentNotFound`.
    pub fn stat(&self, p: &String) -> (r: Result<usize, StorageError>)
        requires
            self.wf(),
        ensures
            match r {
                Ok(n) => self@.contains_key(p@) && n == self@[p@].len(),
                Err(e) => e == StorageError::ContentNotFound && !self@.contains_key(p@),
            },
    {
        match self.find(p) {
            Some(i) => {
                proof {
                    lemma_map_of_get(self.objects@, i as int);
                }
                Ok(self.objects[i].data.len())
            }
            None => Err(StorageError::ContentNotFound),
        }
    }

    /// `write(p, bytes)`: full replace, creating the object as needed.
    pub fn write(&mut self, p: &String, data: Vec<u8>)
        requires
            old(self).wf(),
        ensures
            final(self).wf(),
            final(self)@ == old(self)@.insert(p@, data@),
    {
        match self.find(p) {
            Some(i) => {
                proof {
                    lemma_map_of_update(
                        self.objects@,
                        i as int,
                        Object { path: self.objects@[i as int].path, data },
                    );
                }
                self.objects[i].data = data;
                assert(self.objects@ =~= old(self).objects@.update(
                    i as int,
                    Object { path: old(self).objects@[i as int].path, data },
                ));
                assert forall|a: int, b: int|
                    0 <= a < b < self.objects@.len() implies self.objects@[a].path@
                    != self.objects@[b].path@ by {
                    assert(old(self).objects@[a].path@ != old(self).objects@[b].path@);
                }
            }
            None => {
                proof {
                    lemma_map_of_push(
                        self.objects@,
                        Object { path: *p, data },
                    );
                    lemma_map_of_contains(self.objects@, p@);
                }
                self.objects.push(Object { path: p.clone(), data });
                assert forall|a: int, b: int|
                    0 <= a < b < self.objects@.len() implies self.objects@[a].path@
                    != self.objects@[b].path@ by {
                    if b < self.objects@.len() - 1 {
                        assert(old(self).objects@[a].path@ != old(self).objects@[b].path@);
                    } else {
                        assert(old(self).objects@[a].path@ != p@);
                    }
                }
            }
        }
    }

    /// `append(p, bytes)`: extend an existing object; it must already exist.
    pub fn append(&mut self, p: &String, data: Vec<u8>) -> (r: Result<(), StorageError>)
        requires
            old(self).wf(),
        ensures
            final(self).wf(),
            match r {
                Ok(()) => old(self)@.contains_key(p@) && final(self)@ == old(self)@.insert(
                    p@,
                    old(self)@[p@] + data@,
                ),
                Err(e) => e == StorageError::ContentNotFound && !old(self)@.contains_key(p@)
                    && final(self)@ == old(self)@,
            },
    {
        let mut data = data;
        match self.find(p) {
            Some(i) => {
                proof {
                    lemma_map_of_get(self.objects@, i as int);
                }
                let ghost pre = self.objects@;
                self.objects[i].data.append(&mut data);
                proof {
                    lemma_map_of_update(
                        pre,
                        i as int,
                        Object { path: pre[i as int].path, data: self.objects@[i as int].data },
                    );
                }
                assert(self.objects@ =~= pre.update(
                    i as int,
                    Object { path: pre[i as int].path, data: self.objects@[i as int].data },
                ));
                assert forall|a: int, b: int|
                    0 <= a < b < self.objects@.len() implies self.objects@[a].path@
                    != self.objects@[b].path@ by {
                    assert(pre[a].path@ != pre[b].path@);
                }
                Ok(())
            }
            None => Err(StorageError::ContentNotFound),
        }
    }

    /// `delete(p)`: remove the object, or `ContentNotFound`.
    pub fn delete(&mut self, p: &String) -> (r: Result<(), StorageError>)
        requires
            old(self).wf(),
        ensures
            final(self).wf(),
            match r {
                Ok(()) => old(self)@.contains_key(p@) && final(self)@ == old(self)@.remove(p@),
                Err(e) => e == StorageError::ContentNotFound && !old(self)@.contains_key(p@)
                    && final(self)@ == old(self)@,
            },
    {
        match self.find(p) {
            Some(i) => {
                proof {
                    lemma_map_of_get(self.objects@, i as int);
                    lemma_map_of_remove(self.objects@, i as int);
                }
                self.objects.remove(i);
                assert forall|a: int, b: int|
                    0 <= a < b < self.objects@.len() implies self.objects@[a].path@
                    != self.objects@[b].path@ by {
                    let a0 = if a < i as int { a } else { a + 1 };
                    let b0 = if b < i as int { b } else { b + 1 };
                    assert(old(self).objects@[a0].path@ != old(self).objects@[b0].path@);
                }
                Ok(())
            }
            None => Err(StorageError::ContentNotFound),
        }
    }
}

} // verus!
