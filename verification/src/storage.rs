//! The storage engine: the repository index manager and the blob-upload
//! state machine, over a durable primary backend and a scratch cache.

use vstd::prelude::*;

use crate::backend::Backend;
use crate::common::{str_views, Tags, TagsV};
use crate::content::{
    blob_path, create_blob_path, create_index_path, create_tags_path, create_upload_path,
    digest_from_content, digest_of, index_path, is_digest_ref, is_digest_reference,
    lemma_blob_path_ne_index_path, tags_path, upload_path,
};
use crate::error::StorageError;
use crate::jsonfmt::{index_json, render_index, render_tags, tags_json};
use vstd::utf8::encode_utf8;
use crate::image::{
    ann_keys_distinct, ann_map, anns_of, descs_of, drop_digest, empty_index,
    empty_index_v, first_tagged, get_annotation, index_media_type, lemma_ann_lookup_map,
    manifest_media_type, ref_name_key, set_annotation, strip_claimed, tag_claimed, tag_of,
    Annotation, DescV, Descriptor, ImageIndex, IndexV,
};
use crate::trusted::{
    index_parse, manifest_parse, new_upload_uuid, parse_image_index, parse_image_manifest,
    ParsedPayload,
};

verus! {

struct RepoIndex {
    repo: String,
    index: ImageIndex,
}

struct RepoTags {
    repo: String,
    list: Tags,
}

spec fn idx_lookup(s: Seq<RepoIndex>, repo: Seq<char>) -> Option<IndexV>
    decreases s.len(),
{
    if s.len() == 0 {
        None
    } else if s.last().repo@ == repo {
        Some(s.last().index@)
    } else {
        idx_lookup(s.drop_last(), repo)
    }
}

spec fn tl_lookup(s: Seq<RepoTags>, repo: Seq<char>) -> Option<TagsV>
    decreases s.len(),
{
    if s.len() == 0 {
        None
    } else if s.last().repo@ == repo {
        Some(s.last().list@)
    } else {
        tl_lookup(s.drop_last(), repo)
    }
}

spec fn distinct_idx(s: Seq<RepoIndex>) -> bool {
    forall|i: int, j: int| 0 <= i < j < s.len() ==> s[i].repo@ != s[j].repo@
}

spec fn distinct_tl(s: Seq<RepoTags>) -> bool {
    forall|i: int, j: int| 0 <= i < j < s.len() ==> s[i].repo@ != s[j].repo@
}

proof fn lemma_idx_none(s: Seq<RepoIndex>, repo: Seq<char>)
    ensures
        idx_lookup(s, repo) is None <==> forall|i: int|
            0 <= i < s.len() ==> (#[trigger] s[i]).repo@ != repo,
    decreases s.len(),
{
    if s.len() > 0 {
        let dl = s.drop_last();
        lemma_idx_none(dl, repo);
        assert(s[s.len() - 1] == s.last());
        if idx_lookup(s, repo) is None {
            assert forall|i: int| 0 <= i < s.len() implies (#[trigger] s[i]).repo@
                != repo by {
                if i < s.len() - 1 {
                    assert(dl[i].repo@ != repo);
                    assert(dl[i] == s[i]);
                }
            }
        }
        if forall|i: int| 0 <= i < s.len() ==> (#[trigger] s[i]).repo@ != repo {
            assert forall|i: int| 0 <= i < dl.len() implies (#[trigger] dl[i]).repo@
                != repo by {
                assert(s[i].repo@ != repo);
                assert(dl[i] == s[i]);
            }
            assert(idx_lookup(dl, repo) is None);
        }
    }
}

proof fn lemma_tl_none(s: Seq<RepoTags>, repo: Seq<char>)
    ensures
        tl_lookup(s, repo) is None <==> forall|i: int|
            0 <= i < s.len() ==> (#[trigger] s[i]).repo@ != repo,
    decreases s.len(),
{
    if s.len() > 0 {
        let dl = s.drop_last();
        lemma_tl_none(dl, repo);
        assert(s[s.len() - 1] == s.last());
        if tl_lookup(s, repo) is None {
            assert forall|i: int| 0 <= i < s.len() implies (#[trigger] s[i]).repo@
                != repo by {
                if i < s.len() - 1 {
                    assert(dl[i].repo@ != repo);
                    assert(dl[i] == s[i]);
                }
            }
        }
        if forall|i: int| 0 <= i < s.len() ==> (#[trigger] s[i]).repo@ != repo {
            assert forall|i: int| 0 <= i < dl.len() implies (#[trigger] dl[i]).repo@
                != repo by {
                assert(s[i].repo@ != repo);
                assert(dl[i] == s[i]);
            }
            assert(tl_lookup(dl, repo) is None);
        }
    }
}

proof fn lemma_idx_push(s: Seq<RepoIndex>, x: RepoIndex)
    ensures
        forall|r2: Seq<char>| #[trigger] idx_lookup(s.push(x), r2) == if r2 == x.repo@ {
            Some(x.index@)
        } else {
            idx_lookup(s, r2)
        },
{
    assert(s.push(x).drop_last() =~= s);
    assert(s.push(x).last() == x);
}

proof fn lemma_tl_push(s: Seq<RepoTags>, x: RepoTags)
    ensures
        forall|r2: Seq<char>| #[trigger] tl_lookup(s.push(x), r2) == if r2 == x.repo@ {
            Some(x.list@)
        } else {
            tl_lookup(s, r2)
        },
{
    assert(s.push(x).drop_last() =~= s);
    assert(s.push(x).last() == x);
}

proof fn lemma_idx_update(s: Seq<RepoIndex>, i: int, x: RepoIndex, r2: Seq<char>)
    requires
        distinct_idx(s),
        0 <= i < s.len(),
        x.repo@ == s[i].repo@,
    ensures
        idx_lookup(s.update(i, x), r2) == if r2 == x.repo@ {
            Some(x.index@)
        } else {
            idx_lookup(s, r2)
        },
    decreases s.len(),
{
    let u = s.update(i, x);
    assert forall|a: int, b: int|
        0 <= a < b < s.drop_last().len() implies s.drop_last()[a].repo@
        != s.drop_last()[b].repo@ by {
        assert(s[a].repo@ != s[b].repo@);
    }
    if i == s.len() - 1 {
        assert(u.drop_last() =~= s.drop_last());
        assert(u.last() == x);
    } else {
        lemma_idx_update(s.drop_last(), i, x, r2);
        assert(u.drop_last() =~= s.drop_last().update(i, x));
        assert(u.last() == s.last());
        assert(s.last().repo@ != s[i].repo@);
    }
}

proof fn lemma_tl_update(s: Seq<RepoTags>, i: int, x: RepoTags, r2: Seq<char>)
    requires
        distinct_tl(s),
        0 <= i < s.len(),
        x.repo@ == s[i].repo@,
    ensures
        tl_lookup(s.update(i, x), r2) == if r2 == x.repo@ {
            Some(x.list@)
        } else {
            tl_lookup(s, r2)
        },
    decreases s.len(),
{
    let u = s.update(i, x);
    assert forall|a: int, b: int|
        0 <= a < b < s.drop_last().len() implies s.drop_last()[a].repo@
        != s.drop_last()[b].repo@ by {
        assert(s[a].repo@ != s[b].repo@);
    }
    if i == s.len() - 1 {
        assert(u.drop_last() =~= s.drop_last());
        assert(u.last() == x);
    } else {
        lemma_tl_update(s.drop_last(), i, x, r2);
        assert(u.drop_last() =~= s.drop_last().update(i, x));
        assert(u.last() == s.last());
        assert(s.last().repo@ != s[i].repo@);
    }
}

/// The registry engine: a primary backend for blobs, a cache backend for
/// upload scratch files, and the per-repository indexes and tag lists.
pub struct Storage {
    primary: Backend,
    cache: Backend,
    indexes: Vec<RepoIndex>,
    tag_lists: Vec<RepoTags>,
}

/// Wires the engine over its two backends. The engine owns the catalog
/// paths of both stores from here on: the backends must hold no `index.json`
/// or `tags.json` yet, and stored state from an earlier run enters through
/// `update_image_index`, `update_tags` and `load_blob` instead.
pub fn new(primary: Backend, cache: Backend) -> (r: Storage)
    requires
        primary.wf(),
        cache.wf(),
        forall|r2: Seq<char>| !primary@.contains_key(#[trigger] index_path(r2)),
        forall|r2: Seq<char>| !cache@.contains_key(#[trigger] tags_path(r2)),
    ensures
        r.wf(),
        r.primary_v() == primary@,
        r.cache_v() == cache@,
        forall|r2: Seq<char>| #[trigger] r.spec_index(r2) is None,
        forall|r2: Seq<char>| #[trigger] r.spec_tags(r2) is None,
{
    Storage { primary, cache, indexes: Vec::new(), tag_lists: Vec::new() }
}

impl Storage {
    pub closed spec fn wf(&self) -> bool {
        self.primary.wf() && self.cache.wf() && distinct_idx(self.indexes@) && distinct_tl(
            self.tag_lists@,
        )
    }

    /// The primary backend's contents.
    pub closed spec fn primary_v(&self) -> Map<Seq<char>, Seq<u8>> {
        self.primary@
    }

    /// The cache backend's contents.
    pub closed spec fn cache_v(&self) -> Map<Seq<char>, Seq<u8>> {
        self.cache@
    }

    /// The stored image index of a repository, if one exists yet.
    pub closed spec fn spec_index(&self, repo: Seq<char>) -> Option<IndexV> {
        idx_lookup(self.indexes@, repo)
    }

    /// The stored tag list of a repository, if one exists yet.
    pub closed spec fn spec_tags(&self, repo: Seq<char>) -> Option<TagsV> {
        tl_lookup(self.tag_lists@, repo)
    }

    /// The repository's index, or the empty one it would be initialized to.
    pub open spec fn index_or_init(&self, repo: Seq<char>) -> IndexV {
        match self.spec_index(repo) {
            Some(ix) => ix,
            None => empty_index_v(),
        }
    }

    /// The repository's tag list, or the empty one it would be initialized
    /// to.
    pub open spec fn tags_or_init(&self, repo: Seq<char>) -> TagsV {
        match self.spec_tags(repo) {
            Some(t) => t,
            None => TagsV { name: repo, tags: Seq::empty() },
        }
    }

    fn find_index(&self, repo: &String) -> (r: Option<usize>)
        ensures
            match r {
                Some(i) => i < self.indexes@.len() && self.indexes@[i as int].repo@ == repo@
                    && self.spec_index(repo@) == Some(self.indexes@[i as int].index@),
                None => self.spec_index(repo@) is None,
            },
    {
        proof {
            assert(self.indexes@.take(self.indexes@.len() as int) =~= self.indexes@);
        }
        let mut i: usize = self.indexes.len();
        while i > 0
            invariant
                i <= self.indexes@.len(),
                idx_lookup(self.indexes@, repo@) == idx_lookup(
                    self.indexes@.take(i as int),
                    repo@,
                ),
            decreases i,
        {
            let ghost t = self.indexes@.take(i as int);
            proof {
                assert(t.last() == self.indexes@[i - 1]);
                assert(t.drop_last() =~= self.indexes@.take(i - 1));
            }
            if self.indexes[i - 1].repo == *repo {
                return Some(i - 1);
            }
            i -= 1;
        }
        None
    }

    fn find_tags(&self, repo: &String) -> (r: Option<usize>)
        ensures
            match r {
                Some(i) => i < self.tag_lists@.len() && self.tag_lists@[i as int].repo@
                    == repo@ && self.spec_tags(repo@) == Some(
                    self.tag_lists@[i as int].list@,
                ),
                None => self.spec_tags(repo@) is None,
            },
    {
        proof {
            assert(self.tag_lists@.take(self.tag_lists@.len() as int) =~= self.tag_lists@);
        }
        let mut i: usize = self.tag_lists.len();
        while i > 0
            invariant
                i <= self.tag_lists@.len(),
                tl_lookup(self.tag_lists@, repo@) == tl_lookup(
                    self.tag_lists@.take(i as int),
                    repo@,
                ),
            decreases i,
        {
            let ghost t = self.tag_lists@.take(i as int);
            proof {
                assert(t.last() == self.tag_lists@[i - 1]);
                assert(t.drop_last() =~= self.tag_lists@.take(i - 1));
            }
            if self.tag_lists[i - 1].repo == *repo {
                return Some(i - 1);
            }
            i -= 1;
        }
        None
    }

    /// Reads a repository's index; a repository seen for the first time gets
    /// an empty index (schema version 2, image-index media type) persisted
    /// to its `index.json` path on the primary backend. This read-or-init is
    /// the only auto-creation in the engine.
    pub fn get_image_index(&mut self, repo: &String) -> (r: Result<ImageIndex, StorageError>)
        requires
            old(self).wf(),
        ensures
            final(self).wf(),
            old(self).spec_index(repo@) is Some ==> final(self).primary_v() == old(
                self,
            ).primary_v(),
            old(self).spec_index(repo@) is None ==> final(self).primary_v() == old(
                self,
            ).primary_v().insert(
                index_path(repo@),
                encode_utf8(index_json(empty_index_v())),
            ),
            final(self).cache_v() == old(self).cache_v(),
            forall|r2: Seq<char>| #[trigger] final(self).spec_tags(r2) == old(
                self,
            ).spec_tags(r2),
            forall|r2: Seq<char>| r2 != repo@ ==> #[trigger] final(self).spec_index(r2)
                == old(self).spec_index(r2),
            match r {
                Ok(ix) => ix@ == old(self).index_or_init(repo@) && final(self).spec_index(
                    repo@,
                ) == Some(ix@),
                Err(_) => false,
            },
    {
        match self.find_index(repo) {
            Some(i) => Ok(self.indexes[i].index.clone()),
            None => {
                let ix = empty_index();
                let rendered = render_index(&ix);
                let ghost pre = self.indexes@;
                let entry = RepoIndex { repo: repo.clone(), index: ix };
                proof {
                    lemma_idx_none(pre, repo@);
                }
                self.indexes.push(entry);
                proof {
                    lemma_idx_push(pre, self.indexes@.last());
                    assert forall|a: int, b: int|
                        0 <= a < b < self.indexes@.len() implies self.indexes@[a].repo@
                        != self.indexes@[b].repo@ by {
                        if b < self.indexes@.len() - 1 {
                            assert(pre[a].repo@ != pre[b].repo@);
                        } else {
                            assert(pre[a].repo@ != repo@);
                        }
                    }
                }
                let ghost m = *self;
                let index_p = create_index_path(repo);
                self.primary.write(&index_p, rendered.as_str().as_bytes_vec());
                proof {
                    assert forall|r2: Seq<char>| #[trigger] self.spec_index(r2)
                        == m.spec_index(r2) by {}
                    assert forall|r2: Seq<char>| #[trigger] self.spec_tags(r2)
                        == m.spec_tags(r2) by {}
                }
                Ok(empty_index())
            }
        }
    }

    /// Full replace of a repository's stored index, persisted as JSON at
    /// its `index.json` path on the primary backend. This is also the
    /// host's load path: an index parsed out of a stored `index.json` is
    /// handed in here as plain values.
    pub fn update_image_index(&mut self, repo: &String, index: ImageIndex) -> (r: Result<
        (),
        StorageError,
    >)
        requires
            old(self).wf(),
        ensures
            final(self).wf(),
            r is Ok,
            final(self).primary_v() == old(self).primary_v().insert(
                index_path(repo@),
                encode_utf8(index_json(index@)),
            ),
            final(self).cache_v() == old(self).cache_v(),
            forall|r2: Seq<char>| #[trigger] final(self).spec_tags(r2) == old(
                self,
            ).spec_tags(r2),
            forall|r2: Seq<char>| r2 != repo@ ==> #[trigger] final(self).spec_index(r2)
                == old(self).spec_index(r2),
            final(self).spec_index(repo@) == Some(index@),
    {
        let ghost ixv = index@;
        let rendered = render_index(&index);
        match self.find_index(repo) {
            Some(i) => {
                let ghost pre = self.indexes@;
                self.indexes[i].index = index;
                proof {
                    let x = RepoIndex { repo: pre[i as int].repo, index: self.indexes@[i as int].index };
                    assert(self.indexes@ =~= pre.update(i as int, x));
                    assert forall|r2: Seq<char>| true implies #[trigger] idx_lookup(
                        self.indexes@,
                        r2,
                    ) == if r2 == repo@ {
                        Some(ixv)
                    } else {
                        idx_lookup(pre, r2)
                    } by {
                        lemma_idx_update(pre, i as int, x, r2);
                    }
                    assert forall|a: int, b: int|
                        0 <= a < b < self.indexes@.len() implies self.indexes@[a].repo@
                        != self.indexes@[b].repo@ by {
                        assert(pre[a].repo@ != pre[b].repo@);
                    }
                }
            }
            None => {
                let ghost pre = self.indexes@;
                proof {
                    lemma_idx_none(pre, repo@);
                }
                self.indexes.push(RepoIndex { repo: repo.clone(), index });
                proof {
                    lemma_idx_push(pre, self.indexes@.last());
                    assert forall|a: int, b: int|
                        0 <= a < b < self.indexes@.len() implies self.indexes@[a].repo@
                        != self.indexes@[b].repo@ by {
                        if b < self.indexes@.len() - 1 {
                            assert(pre[a].repo@ != pre[b].repo@);
                        } else {
                            assert(pre[a].repo@ != repo@);
                        }
                    }
                }
            }
        }
        let ghost m = *self;
        let index_p = create_index_path(repo);
        self.primary.write(&index_p, rendered.as_str().as_bytes_vec());
        proof {
            assert forall|r2: Seq<char>| #[trigger] self.spec_index(r2) == m.spec_index(
                r2,
            ) by {}
            assert forall|r2: Seq<char>| #[trigger] self.spec_tags(r2) == m.spec_tags(
                r2,
            ) by {}
        }
        Ok(())
    }

    /// Reads a repository's tag list, initializing an empty one on first
    /// access and persisting it to the `tags.json` path on the cache
    /// backend, as `get_image_index` does for the index.
    pub fn get_tags(&mut self, repo: &String) -> (r: Result<Tags, StorageError>)
        requires
            old(self).wf(),
        ensures
            final(self).wf(),
            final(self).primary_v() == old(self).primary_v(),
            old(self).spec_tags(repo@) is Some ==> final(self).cache_v() == old(
                self,
            ).cache_v(),
            old(self).spec_tags(repo@) is None ==> final(self).cache_v() == old(
                self,
            ).cache_v().insert(
                tags_path(repo@),
                encode_utf8(tags_json(old(self).tags_or_init(repo@))),
            ),
            forall|r2: Seq<char>| #[trigger] final(self).spec_index(r2) == old(
                self,
            ).spec_index(r2),
            forall|r2: Seq<char>| r2 != repo@ ==> #[trigger] final(self).spec_tags(r2)
                == old(self).spec_tags(r2),
            match r {
                Ok(t) => t@ == old(self).tags_or_init(repo@) && final(self).spec_tags(repo@)
                    == Some(t@),
                Err(_) => false,
            },
    {
        match self.find_tags(repo) {
            Some(i) => Ok(self.tag_lists[i].list.clone()),
            None => {
                let list = Tags { name: repo.clone(), tags: Vec::new() };
                let rendered = render_tags(&list);
                let ghost pre = self.tag_lists@;
                proof {
                    lemma_tl_none(pre, repo@);
                    assert(list@ =~= TagsV { name: repo@, tags: Seq::empty() });
                }
                let out = list.clone();
                self.tag_lists.push(RepoTags { repo: repo.clone(), list });
                proof {
                    lemma_tl_push(pre, self.tag_lists@.last());
                    assert forall|a: int, b: int|
                        0 <= a < b < self.tag_lists@.len() implies self.tag_lists@[a].repo@
                        != self.tag_lists@[b].repo@ by {
                        if b < self.tag_lists@.len() - 1 {
                            assert(pre[a].repo@ != pre[b].repo@);
                        } else {
                            assert(pre[a].repo@ != repo@);
                        }
                    }
                }
                let ghost m = *self;
                let tags_p = create_tags_path(repo);
                self.cache.write(&tags_p, rendered.as_str().as_bytes_vec());
                proof {
                    assert forall|r2: Seq<char>| #[trigger] self.spec_index(r2)
                        == m.spec_index(r2) by {}
                    assert forall|r2: Seq<char>| #[trigger] self.spec_tags(r2)
                        == m.spec_tags(r2) by {}
                }
                Ok(out)
            }
        }
    }

    /// Full replace of a repository's stored tag list, persisted as JSON at
    /// its `tags.json` path on the cache backend.
    pub fn update_tags(&mut self, repo: &String, tag: Tags) -> (r: Result<(), StorageError>)
        requires
            old(self).wf(),
        ensures
            final(self).wf(),
            r is Ok,
            final(self).primary_v() == old(self).primary_v(),
            final(self).cache_v() == old(self).cache_v().insert(
                tags_path(repo@),
                encode_utf8(tags_json(tag@)),
            ),
            forall|r2: Seq<char>| #[trigger] final(self).spec_index(r2) == old(
                self,
            ).spec_index(r2),
            forall|r2: Seq<char>| r2 != repo@ ==> #[trigger] final(self).spec_tags(r2)
                == old(self).spec_tags(r2),
            final(self).spec_tags(repo@) == Some(tag@),
    {
        let ghost tv = tag@;
        let rendered = render_tags(&tag);
        match self.find_tags(repo) {
            Some(i) => {
                let ghost pre = self.tag_lists@;
                self.tag_lists[i].list = tag;
                proof {
                    let x = RepoTags { repo: pre[i as int].repo, list: self.tag_lists@[i as int].list };
                    assert(self.tag_lists@ =~= pre.update(i as int, x));
                    assert forall|r2: Seq<char>| true implies #[trigger] tl_lookup(
                        self.tag_lists@,
                        r2,
                    ) == if r2 == repo@ {
                        Some(tv)
                    } else {
                        tl_lookup(pre, r2)
                    } by {
                        lemma_tl_update(pre, i as int, x, r2);
                    }
                    assert forall|a: int, b: int|
                        0 <= a < b < self.tag_lists@.len() implies self.tag_lists@[a].repo@
                        != self.tag_lists@[b].repo@ by {
                        assert(pre[a].repo@ != pre[b].repo@);
                    }
                }
            }
            None => {
                let ghost pre = self.tag_lists@;
                proof {
                    lemma_tl_none(pre, repo@);
                }
                self.tag_lists.push(RepoTags { repo: repo.clone(), list: tag });
                proof {
                    lemma_tl_push(pre, self.tag_lists@.last());
                    assert forall|a: int, b: int|
                        0 <= a < b < self.tag_lists@.len() implies self.tag_lists@[a].repo@
                        != self.tag_lists@[b].repo@ by {
                        if b < self.tag_lists@.len() - 1 {
                            assert(pre[a].repo@ != pre[b].repo@);
                        } else {
                            assert(pre[a].repo@ != repo@);
                        }
                    }
                }
            }
        }
        let ghost m = *self;
        let tags_p = create_tags_path(repo);
        self.cache.write(&tags_p, rendered.as_str().as_bytes_vec());
        proof {
            assert forall|r2: Seq<char>| #[trigger] self.spec_index(r2) == m.spec_index(
                r2,
            ) by {}
            assert forall|r2: Seq<char>| #[trigger] self.spec_tags(r2) == m.spec_tags(
                r2,
            ) by {}
        }
        Ok(())
    }

    /// Reads a blob by its digest, straight from the primary backend.
    pub fn get_blobs(&self, repo: &String, digest: &String) -> (r: Result<
        Vec<u8>,
        StorageError,
    >)
        requires
            self.wf(),
        ensures
            match r {
                Ok(d) => self.primary_v().contains_key(blob_path(repo@, digest@)) && d@
                    == self.primary_v()[blob_path(repo@, digest@)],
                Err(e) => e == StorageError::ContentNotFound && !self.primary_v()
                    .contains_key(blob_path(repo@, digest@)),
            },
    {
        let blob_p = create_blob_path(repo, digest);
        self.primary.read(&blob_p)
    }

    /// Restores a blob into the primary backend under its derived path:
    /// the host's load path for blobs found in durable storage at startup.
    pub fn load_blob(&mut self, repo: &String, digest: &String, data: Vec<u8>) -> (r: Result<
        (),
        StorageError,
    >)
        requires
            old(self).wf(),
        ensures
            final(self).wf(),
            r is Ok,
            same_catalog(*old(self), *final(self)),
            final(self).cache_v() == old(self).cache_v(),
            final(self).primary_v() == old(self).primary_v().insert(
                blob_path(repo@, digest@),
                data@,
            ),
    {
        let blob_p = create_blob_path(repo, digest);
        self.primary.write(&blob_p, data);
        Ok(())
    }

    /// Resolves a reference to manifest bytes: a `sha256:` reference reads
    /// the blob directly; any other reference is a tag, matched against the
    /// ref-name annotations of the repository's index in order, first match
    /// winning.
    #[verifier::loop_isolation(false)]
    pub fn get_manifest(&mut self, repo: &String, tag: &String) -> (r: Result<
        Vec<u8>,
        StorageError,
    >)
        requires
            old(self).wf(),
        ensures
            final(self).wf(),
            is_digest_ref(tag@) ==> unchanged(*old(self), *final(self)) && blob_read_result(
                *old(self),
                repo@,
                tag@,
                r,
            ),
            !is_digest_ref(tag@) ==> {
                &&& (old(self).spec_index(repo@) is Some ==> final(self).primary_v() == old(
                    self,
                ).primary_v())
                &&& (old(self).spec_index(repo@) is None ==> final(self).primary_v() == old(
                    self,
                ).primary_v().insert(
                    index_path(repo@),
                    encode_utf8(index_json(empty_index_v())),
                ))
                &&& final(self).cache_v() == old(self).cache_v()
                &&& forall|r2: Seq<char>| #[trigger] final(self).spec_tags(r2) == old(
                    self,
                ).spec_tags(r2)
                &&& forall|r2: Seq<char>| r2 != repo@ ==> #[trigger] final(self).spec_index(
                    r2,
                ) == old(self).spec_index(r2)
                &&& final(self).spec_index(repo@) == Some(old(self).index_or_init(repo@))
                &&& match first_tagged(old(self).index_or_init(repo@).manifests, tag@) {
                    Some(d) => blob_read_result(*old(self), repo@, d.digest, r),
                    None => r == Err::<Vec<u8>, StorageError>(StorageError::ContentNotFound),
                }
            },
    {
        if is_digest_reference(tag) {
            return self.get_blobs(repo, tag);
        }
        let ix = match self.get_image_index(repo) {
            Ok(ix) => ix,
            Err(e) => { return Err(e); }
        };
        let ghost msv = ix@.manifests;
        let key = ref_name_key();
        proof {
            assert(msv.skip(0) =~= msv);
        }
        let mut j: usize = 0;
        while j < ix.manifests.len()
            invariant
                j <= ix.manifests@.len(),
                first_tagged(msv, tag@) == first_tagged(msv.skip(j as int), tag@),
            decreases ix.manifests@.len() - j,
        {
            proof {
                assert(msv.skip(j as int)[0] == msv[j as int]);
                assert(msv.skip(j as int).drop_first() =~= msv.skip(j + 1));
                assert(msv[j as int] == ix.manifests@[j as int]@);
            }
            let found = match get_annotation(&ix.manifests[j].annotations, &key) {
                Some(v) => v == *tag,
                None => false,
            };
            if found {
                proof {
                    assert(tag_of(msv[j as int]) == Some(tag@));
                    assert(first_tagged(msv.skip(j as int), tag@) == Some(msv[j as int]));
                    lemma_blob_path_ne_index_path(repo@, ix.manifests@[j as int].digest@);
                }
                return self.get_blobs(repo, &ix.manifests[j].digest);
            }
            proof {
                assert(tag_of(msv[j as int]) != Some(tag@));
            }
            j += 1;
        }
        proof {
            assert(msv.skip(ix.manifests@.len() as int) =~= Seq::<DescV>::empty());
        }
        Err(StorageError::ContentNotFound)
    }

    /// Opens an upload session: mints a fresh identifier and creates an
    /// empty scratch file for it on the cache backend.
    pub fn new_blob_upload(&mut self, repo: &String) -> (r: Result<String, StorageError>)
        requires
            old(self).wf(),
        ensures
            final(self).wf(),
            same_catalog(*old(self), *final(self)),
            final(self).primary_v() == old(self).primary_v(),
            match r {
                Ok(u) => final(self).cache_v() == old(self).cache_v().insert(
                    upload_path(repo@, u@),
                    Seq::empty(),
                ),
                Err(_) => false,
            },
    {
        let upload_uuid = new_upload_uuid();
        let f_path = create_upload_path(repo, &upload_uuid);
        self.cache.write(&f_path, Vec::new());
        Ok(upload_uuid)
    }

    /// Appends a chunk at a stated offset: the offset must equal the scratch
    /// file's current length, else nothing changes and the range is refused.
    pub fn update_blob_upload(&mut self, repo: &String, location: &String, from: u64, data: Vec<
        u8,
    >) -> (r: Result<(), StorageError>)
        requires
            old(self).wf(),
        ensures
            final(self).wf(),
            same_catalog(*old(self), *final(self)),
            final(self).primary_v() == old(self).primary_v(),
            !old(self).cache_v().contains_key(upload_path(repo@, location@)) ==> r == Err::<
                (),
                StorageError,
            >(StorageError::ContentNotFound) && final(self).cache_v() == old(self).cache_v(),
            old(self).cache_v().contains_key(upload_path(repo@, location@)) && old(
                self,
            ).cache_v()[upload_path(repo@, location@)].len() != from ==> r == Err::<
                (),
                StorageError,
            >(StorageError::RangeNotSatisfied) && final(self).cache_v() == old(self).cache_v(),
            old(self).cache_v().contains_key(upload_path(repo@, location@)) && old(
                self,
            ).cache_v()[upload_path(repo@, location@)].len() == from ==> r == Ok::<
                (),
                StorageError,
            >(()) && final(self).cache_v() == old(self).cache_v().insert(
                upload_path(repo@, location@),
                old(self).cache_v()[upload_path(repo@, location@)] + data@,
            ),
    {
        let f_path = create_upload_path(repo, location);
        let n = match self.cache.stat(&f_path) {
            Ok(n) => n,
            Err(e) => { return Err(e); }
        };
        if n as u64 != from {
            return Err(StorageError::RangeNotSatisfied);
        }
        match self.cache.append(&f_path, data) {
            Ok(()) => Ok(()),
            Err(e) => Err(e),
        }
    }

    /// Resume probe: the current length of an upload's scratch file.
    pub fn get_blob_upload(&self, repo: &String, location: &String) -> (r: Result<
        usize,
        StorageError,
    >)
        requires
            self.wf(),
        ensures
            match r {
                Ok(n) => self.cache_v().contains_key(upload_path(repo@, location@)) && n
                    == self.cache_v()[upload_path(repo@, location@)].len(),
                Err(e) => e == StorageError::ContentNotFound && !self.cache_v().contains_key(
                    upload_path(repo@, location@),
                ),
            },
    {
        let f_path = create_upload_path(repo, location);
        self.cache.stat(&f_path)
    }

    /// Appends a chunk without an offset check (streaming upload).
    pub fn streamed_blob_upload(&mut self, repo: &String, location: &String, data: Vec<u8>) -> (r:
        Result<(), StorageError>)
        requires
            old(self).wf(),
        ensures
            final(self).wf(),
            same_catalog(*old(self), *final(self)),
            final(self).primary_v() == old(self).primary_v(),
            match r {
                Ok(()) => old(self).cache_v().contains_key(upload_path(repo@, location@))
                    && final(self).cache_v() == old(self).cache_v().insert(
                    upload_path(repo@, location@),
                    old(self).cache_v()[upload_path(repo@, location@)] + data@,
                ),
                Err(e) => e == StorageError::ContentNotFound && !old(self).cache_v()
                    .contains_key(upload_path(repo@, location@)) && final(self).cache_v()
                    == old(self).cache_v(),
            },
    {
        let f_path = create_upload_path(repo, location);
        self.cache.append(&f_path, data)
    }

    /// Finalizes an upload: promotes the scratch bytes to the blob path of
    /// the digest the client supplied, then deletes the scratch file. The
    /// digest is taken on trust, as the wire protocol hands it over.
    pub fn delete_blob_upload(&mut self, repo: &String, digest: &String, location: &String) -> (r:
        Result<(), StorageError>)
        requires
            old(self).wf(),
        ensures
            final(self).wf(),
            same_catalog(*old(self), *final(self)),
            match r {
                Ok(()) => {
                    &&& old(self).cache_v().contains_key(upload_path(repo@, location@))
                    &&& final(self).primary_v() == old(self).primary_v().insert(
                        blob_path(repo@, digest@),
                        old(self).cache_v()[upload_path(repo@, location@)],
                    )
                    &&& final(self).cache_v() == old(self).cache_v().remove(
                        upload_path(repo@, location@),
                    )
                },
                Err(e) => e == StorageError::ContentNotFound && !old(self).cache_v()
                    .contains_key(upload_path(repo@, location@)) && final(self).primary_v()
                    == old(self).primary_v() && final(self).cache_v() == old(self).cache_v(),
            },
    {
        let cached_blob = create_upload_path(repo, location);
        let data = match self.cache.read(&cached_blob) {
            Ok(d) => d,
            Err(e) => { return Err(e); }
        };
        let blob_p = create_blob_path(repo, digest);
        self.primary.write(&blob_p, data);
        match self.cache.delete(&cached_blob) {
            Ok(()) => Ok(()),
            Err(e) => Err(e),
        }
    }

    /// Stores manifest bytes under a reference. The blob always lands in the
    /// primary backend: at the reference itself when it is a digest, else at
    /// the computed digest, with the tag recorded in the tag list and staged
    /// as a ref-name annotation. The payload is parsed according to its
    /// media type for a subject digest and annotations, and a descriptor for
    /// it is appended to the repository's index.
    #[verifier::rlimit(30)]
    pub fn write_manifest(&mut self, repo: &String, tag: &String, data: &Vec<u8>, size: usize, media_type: &String) -> (r: Result<(String, String), StorageError>)
        requires
            old(self).wf(),
        ensures
            final(self).wf(),
            is_digest_ref(tag@) && old(self).spec_tags(repo@) is Some ==> final(self).cache_v() == old(self).cache_v(),
            is_digest_ref(tag@) && old(self).spec_tags(repo@) is None ==> final(self).cache_v() == old(self).cache_v().insert(
                tags_path(repo@),
                encode_utf8(tags_json(old(self).tags_or_init(repo@))),
            ),
            !is_digest_ref(tag@) ==> final(self).cache_v() == old(self).cache_v().insert(
                tags_path(repo@),
                encode_utf8(
                    tags_json(
                        TagsV {
                            name: old(self).tags_or_init(repo@).name,
                            tags: old(self).tags_or_init(repo@).tags.push(tag@),
                        },
                    ),
                ),
            ),
            r is Ok ==> match final(self).spec_index(repo@) {
                Some(ix) => final(self).primary_v() == old(self).primary_v().insert(
                    blob_path(repo@, stored_ref(tag@, data@)),
                    data@,
                ).insert(index_path(repo@), encode_utf8(index_json(ix))),
                None => false,
            },
            r is Err && old(self).spec_index(repo@) is Some ==> final(self).primary_v()
                == old(self).primary_v().insert(
                blob_path(repo@, stored_ref(tag@, data@)),
                data@,
            ),
            r is Err && old(self).spec_index(repo@) is None ==> final(self).primary_v()
                == old(self).primary_v().insert(
                blob_path(repo@, stored_ref(tag@, data@)),
                data@,
            ).insert(index_path(repo@), encode_utf8(index_json(empty_index_v()))),
            forall|r2: Seq<char>| r2 != repo@ ==> #[trigger] final(self).spec_tags(r2) == old(
                self,
            ).spec_tags(r2),
            forall|r2: Seq<char>| r2 != repo@ ==> #[trigger] final(self).spec_index(r2)
                == old(self).spec_index(r2),
            is_digest_ref(tag@) ==> final(self).spec_tags(repo@) == Some(
                old(self).tags_or_init(repo@),
            ),
            !is_digest_ref(tag@) ==> final(self).spec_tags(repo@) == Some(
                TagsV {
                    name: old(self).tags_or_init(repo@).name,
                    tags: old(self).tags_or_init(repo@).tags.push(tag@),
                },
            ),
            r is Ok <==> payload_parse(media_type@, data@) is Some,
            payload_parse(media_type@, data@) is None ==> final(self).spec_index(repo@)
                == Some(old(self).index_or_init(repo@)),
            match r {
                Ok((dg, sj)) => {
                    let p = payload_parse(media_type@, data@)->Some_0;
                    let oldix = old(self).index_or_init(repo@);
                    &&& dg@ == digest_of(data@)
                    &&& sj@ == match p.0 {
                        Some(s) => s,
                        None => Seq::<char>::empty(),
                    }
                    &&& match final(self).spec_index(repo@) {
                        Some(ix) => {
                            &&& ix.schema_version == oldix.schema_version
                            &&& ix.media_type == oldix.media_type
                            &&& ix.manifests.len() == oldix.manifests.len() + 1
                            &&& ix.manifests.take(oldix.manifests.len() as int)
                                == oldix.manifests
                            &&& pushed_descriptor(
                                ix.manifests.last(),
                                media_type@,
                                size as u64,
                                data@,
                                tag@,
                                p.1,
                            )
                        },
                        None => false,
                    }
                },
                Err(e) => e == StorageError::SpecParse,
            },
    {
        let digest = digest_from_content(data);
        let mut tags = match self.get_tags(repo) {
            Ok(t) => t,
            Err(e) => { return Err(e); }
        };
        let ghost m1 = *self;
        let ghost mut m_mid = *self;
        if is_digest_reference(tag) {
            let path = create_blob_path(repo, tag);
            self.primary.write(&path, crate::backend::clone_bytes(data));
        } else {
            let ghost pre_tags = tags.tags@;
            tags.tags.push(tag.clone());
            proof {
                assert(str_views(tags.tags@) =~= str_views(pre_tags).push(tag@));
                assert(tags@ =~= TagsV {
                    name: old(self).tags_or_init(repo@).name,
                    tags: old(self).tags_or_init(repo@).tags.push(tag@),
                });
            }
            let ghost pushed = tags@;
            match self.update_tags(repo, tags) {
                Ok(()) => (),
                Err(e) => { return Err(e); }
            }
            proof {
                m_mid = *self;
                assert(self.cache_v() =~= old(self).cache_v().insert(
                    tags_path(repo@),
                    encode_utf8(tags_json(pushed)),
                ));
            }
            let path = create_blob_path(repo, &digest);
            self.primary.write(&path, crate::backend::clone_bytes(data));
        }
        let ghost m2 = *self;
        proof {
            assert forall|r2: Seq<char>| r2 != repo@ implies self.spec_tags(r2) == old(
                self,
            ).spec_tags(r2) by {
                assert(m1.spec_tags(r2) == old(self).spec_tags(r2));
                assert(m_mid.spec_tags(r2) == m1.spec_tags(r2));
                assert(m2.spec_tags(r2) == m_mid.spec_tags(r2));
            }
            assert forall|r2: Seq<char>| self.spec_index(r2) == old(self).spec_index(
                r2,
            ) by {
                assert(m1.spec_index(r2) == old(self).spec_index(r2));
                assert(m_mid.spec_index(r2) == m1.spec_index(r2));
                assert(m2.spec_index(r2) == m_mid.spec_index(r2));
            }
            if is_digest_ref(tag@) {
                assert(self.spec_tags(repo@) == Some(old(self).tags_or_init(repo@)));
            }
        }
        let mut img_index = match self.get_image_index(repo) {
            Ok(ix) => ix,
            Err(e) => { return Err(e); }
        };
        let ghost m3 = *self;
        proof {
            assert forall|r2: Seq<char>| r2 != repo@ implies self.spec_tags(r2) == old(
                self,
            ).spec_tags(r2) by {
                assert(m2.spec_tags(r2) == old(self).spec_tags(r2));
                assert(m3.spec_tags(r2) == m2.spec_tags(r2));
            }
            assert(self.spec_tags(repo@) == m2.spec_tags(repo@));
            assert forall|r2: Seq<char>| r2 != repo@ implies self.spec_index(r2) == old(
                self,
            ).spec_index(r2) by {
                assert(m2.spec_index(r2) == old(self).spec_index(r2));
                assert(m3.spec_index(r2) == m2.spec_index(r2));
            }
            assert(img_index@ == old(self).index_or_init(repo@));
            assert(self.spec_index(repo@) == Some(img_index@));
        }
        let parsed: ParsedPayload = if *media_type == manifest_media_type() {
            match parse_image_manifest(data) {
                Some(p) => p,
                None => { return Err(StorageError::SpecParse); }
            }
        } else if *media_type == index_media_type() {
            match parse_image_index(data) {
                Some(p) => p,
                None => { return Err(StorageError::SpecParse); }
            }
        } else {
            let p = ParsedPayload { subject: None, annotations: Vec::new() };
            proof {
                assert(anns_of(p.annotations@) =~= Seq::<(Seq<char>, Seq<char>)>::empty());
            }
            p
        };
        let ParsedPayload { subject, annotations } = parsed;
        let subject_digest: String = match subject {
            Some(s) => s,
            None => String::new(),
        };
        let merged: Vec<Annotation> = if is_digest_reference(tag) {
            annotations
        } else {
            let key = ref_name_key();
            set_annotation(&annotations, &key, tag)
        };
        let descriptor = Descriptor {
            media_type: media_type.clone(),
            size: size as u64,
            digest: digest.clone(),
            annotations: merged,
            artifact_type: None,
        };
        proof {
            if !is_digest_ref(tag@) {
                lemma_ann_lookup_map(
                    anns_of(descriptor.annotations@),
                    "org.opencontainers.image.ref.name"@,
                );
            }
        }
        let ghost pre_ms = img_index.manifests@;
        img_index.manifests.push(descriptor);
        proof {
            assert(descs_of(img_index.manifests@) =~= descs_of(pre_ms).push(
                img_index.manifests@.last()@,
            ));
            assert(descs_of(img_index.manifests@).take(descs_of(pre_ms).len() as int)
                =~= descs_of(pre_ms));
        }
        let ghost ixv = img_index@;
        match self.update_image_index(repo, img_index) {
            Ok(()) => (),
            Err(e) => { return Err(e); }
        }
        proof {
            assert forall|r2: Seq<char>| r2 != repo@ implies self.spec_tags(r2) == old(
                self,
            ).spec_tags(r2) by {
                assert(m3.spec_tags(r2) == old(self).spec_tags(r2));
                assert(self.spec_tags(r2) == m3.spec_tags(r2));
            }
            assert(self.spec_tags(repo@) == m3.spec_tags(repo@));
            assert forall|r2: Seq<char>| r2 != repo@ implies self.spec_index(r2) == old(
                self,
            ).spec_index(r2) by {
                assert(m3.spec_index(r2) == old(self).spec_index(r2));
                assert(self.spec_index(r2) == m3.spec_index(r2));
            }
            assert(self.spec_index(repo@) == Some(ixv));
            assert(self.primary_v() =~= old(self).primary_v().insert(
                blob_path(repo@, stored_ref(tag@, data@)),
                data@,
            ).insert(index_path(repo@), encode_utf8(index_json(ixv))));
        }
        Ok((digest, subject_digest))
    }

    /// Deletes a manifest by digest: every tag that any descriptor claims
    /// through its ref-name annotation leaves the tag list, every descriptor
    /// with the target digest leaves the index, and the blob itself is
    /// deleted last.
    #[verifier::loop_isolation(false)]
    pub fn delete_manifest(&mut self, repo: &String, digest: &String) -> (r: Result<
        (),
        StorageError,
    >)
        requires
            old(self).wf(),
        ensures
            final(self).wf(),
            final(self).cache_v() == old(self).cache_v().insert(
                tags_path(repo@),
                encode_utf8(
                    tags_json(
                        TagsV {
                            name: old(self).tags_or_init(repo@).name,
                            tags: strip_claimed(
                                old(self).tags_or_init(repo@).tags,
                                old(self).index_or_init(repo@).manifests,
                            ),
                        },
                    ),
                ),
            ),
            forall|r2: Seq<char>| r2 != repo@ ==> #[trigger] final(self).spec_tags(r2) == old(
                self,
            ).spec_tags(r2),
            forall|r2: Seq<char>| r2 != repo@ ==> #[trigger] final(self).spec_index(r2)
                == old(self).spec_index(r2),
            final(self).spec_index(repo@) == Some(
                IndexV {
                    schema_version: old(self).index_or_init(repo@).schema_version,
                    media_type: old(self).index_or_init(repo@).media_type,
                    manifests: drop_digest(old(self).index_or_init(repo@).manifests, digest@),
                },
            ),
            final(self).spec_tags(repo@) == Some(
                TagsV {
                    name: old(self).tags_or_init(repo@).name,
                    tags: strip_claimed(
                        old(self).tags_or_init(repo@).tags,
                        old(self).index_or_init(repo@).manifests,
                    ),
                },
            ),
            match r {
                Ok(()) => old(self).primary_v().contains_key(blob_path(repo@, digest@))
                    && final(self).primary_v() == old(self).primary_v().insert(
                    index_path(repo@),
                    encode_utf8(
                        index_json(
                            IndexV {
                                schema_version: old(self).index_or_init(repo@).schema_version,
                                media_type: old(self).index_or_init(repo@).media_type,
                                manifests: drop_digest(
                                    old(self).index_or_init(repo@).manifests,
                                    digest@,
                                ),
                            },
                        ),
                    ),
                ).remove(blob_path(repo@, digest@)),
                Err(e) => e == StorageError::ContentNotFound && !old(self).primary_v()
                    .contains_key(blob_path(repo@, digest@)) && final(self).primary_v()
                    == old(self).primary_v().insert(
                    index_path(repo@),
                    encode_utf8(
                        index_json(
                            IndexV {
                                schema_version: old(self).index_or_init(repo@).schema_version,
                                media_type: old(self).index_or_init(repo@).media_type,
                                manifests: drop_digest(
                                    old(self).index_or_init(repo@).manifests,
                                    digest@,
                                ),
                            },
                        ),
                    ),
                ),
            },
    {
        let index = match self.get_image_index(repo) {
            Ok(ix) => ix,
            Err(e) => { return Err(e); }
        };
        let ghost m1 = *self;
        let repo_tags = match self.get_tags(repo) {
            Ok(t) => t,
            Err(e) => { return Err(e); }
        };
        proof {
            assert(m1.spec_tags(repo@) == old(self).spec_tags(repo@));
            assert(repo_tags@ == old(self).tags_or_init(repo@));
        }
        proof {
            assert forall|r2: Seq<char>| r2 != repo@ implies self.spec_tags(r2) == old(
                self,
            ).spec_tags(r2) by {}
            assert forall|r2: Seq<char>| r2 != repo@ implies self.spec_index(r2) == old(
                self,
            ).spec_index(r2) by {}
        }
        let ghost msv = index@.manifests;
        let key = ref_name_key();

        let mut kept: Vec<String> = Vec::new();
        proof {
            assert(str_views(repo_tags.tags@).take(0) =~= Seq::<Seq<char>>::empty());
        }
        let mut k: usize = 0;
        while k < repo_tags.tags.len()
            invariant
                k <= repo_tags.tags@.len(),
                str_views(kept@) == strip_claimed(str_views(repo_tags.tags@).take(k as int), msv),
            decreases repo_tags.tags@.len() - k,
        {
            let ghost tgt = str_views(repo_tags.tags@).take(k + 1);
            proof {
                assert(tgt.drop_last() =~= str_views(repo_tags.tags@).take(k as int));
                assert(tgt.last() == repo_tags.tags@[k as int]@);
            }
            let ghost pre_kept = kept@;
            let claimed = has_claimed(&index.manifests, &repo_tags.tags[k], &key);
            if !claimed {
                kept.push(repo_tags.tags[k].clone());
                proof {
                    assert(str_views(kept@) =~= str_views(pre_kept).push(
                        repo_tags.tags@[k as int]@,
                    ));
                    assert(str_views(kept@) =~= strip_claimed(tgt, msv));
                }
            } else {
                proof {
                    assert(str_views(kept@) =~= strip_claimed(tgt, msv));
                }
            }
            k += 1;
        }
        proof {
            assert(str_views(repo_tags.tags@).take(repo_tags.tags@.len() as int) =~= str_views(
                repo_tags.tags@,
            ));
        }

        let mut new_manifests: Vec<Descriptor> = Vec::new();
        proof {
            assert(msv.take(0) =~= Seq::<DescV>::empty());
        }
        let mut i: usize = 0;
        while i < index.manifests.len()
            invariant
                i <= index.manifests@.len(),
                descs_of(new_manifests@) == drop_digest(msv.take(i as int), digest@),
            decreases index.manifests@.len() - i,
        {
            let ghost tgt = msv.take(i + 1);
            proof {
                assert(tgt.drop_last() =~= msv.take(i as int));
                assert(tgt.last() == msv[i as int]);
                assert(msv[i as int] == index.manifests@[i as int]@);
            }
            let ghost pre_new = new_manifests@;
            if !(index.manifests[i].digest == *digest) {
                new_manifests.push(index.manifests[i].clone());
                proof {
                    assert(descs_of(new_manifests@) =~= descs_of(pre_new).push(msv[i as int]));
                    assert(descs_of(new_manifests@) =~= drop_digest(tgt, digest@));
                }
            } else {
                proof {
                    assert(descs_of(new_manifests@) =~= drop_digest(tgt, digest@));
                }
            }
            i += 1;
        }
        proof {
            assert(msv.take(msv.len() as int) =~= msv);
        }

        let new_index = ImageIndex {
            schema_version: index.schema_version,
            media_type: index.media_type,
            manifests: new_manifests,
        };
        let ghost kept_v = str_views(kept@);
        let ghost rt_name = repo_tags.name@;
        let ghost new_ixv = new_index@;
        let new_tags = Tags { name: repo_tags.name, tags: kept };
        proof {
            assert(new_tags@ =~= TagsV {
                name: old(self).tags_or_init(repo@).name,
                tags: strip_claimed(
                    old(self).tags_or_init(repo@).tags,
                    old(self).index_or_init(repo@).manifests,
                ),
            });
            assert(new_ixv =~= IndexV {
                schema_version: old(self).index_or_init(repo@).schema_version,
                media_type: old(self).index_or_init(repo@).media_type,
                manifests: drop_digest(old(self).index_or_init(repo@).manifests, digest@),
            });
        }
        let ghost ntv = new_tags@;
        match self.update_tags(repo, new_tags) {
            Ok(()) => (),
            Err(e) => { return Err(e); }
        }
        let ghost m3 = *self;
        proof {
            assert(self.cache_v() =~= old(self).cache_v().insert(
                tags_path(repo@),
                encode_utf8(tags_json(ntv)),
            ));
            assert forall|r2: Seq<char>| r2 != repo@ implies self.spec_tags(r2) == old(
                self,
            ).spec_tags(r2) by {}
            assert forall|r2: Seq<char>| r2 != repo@ implies self.spec_index(r2) == old(
                self,
            ).spec_index(r2) by {}
            assert(self.spec_tags(repo@) == Some(ntv));
        }
        match self.update_image_index(repo, new_index) {
            Ok(()) => (),
            Err(e) => { return Err(e); }
        }
        let ghost m4 = *self;
        proof {
            assert forall|r2: Seq<char>| r2 != repo@ implies self.spec_tags(r2) == old(
                self,
            ).spec_tags(r2) by {
                assert(m3.spec_tags(r2) == old(self).spec_tags(r2));
                assert(m4.spec_tags(r2) == m3.spec_tags(r2));
            }
            assert(self.spec_tags(repo@) == m3.spec_tags(repo@));
            assert forall|r2: Seq<char>| r2 != repo@ implies self.spec_index(r2) == old(
                self,
            ).spec_index(r2) by {
                assert(m3.spec_index(r2) == old(self).spec_index(r2));
                assert(m4.spec_index(r2) == m3.spec_index(r2));
            }
            assert(self.spec_index(repo@) == Some(new_ixv));
            assert(self.primary_v() =~= old(self).primary_v().insert(
                index_path(repo@),
                encode_utf8(index_json(new_ixv)),
            ));
            lemma_blob_path_ne_index_path(repo@, digest@);
        }
        let blob_p = create_blob_path(repo, digest);
        let ghost p_mid = self.primary_v();
        let dres = self.primary.delete(&blob_p);
        proof {
            assert forall|r2: Seq<char>| r2 != repo@ implies self.spec_tags(r2) == old(
                self,
            ).spec_tags(r2) by {
                assert(m4.spec_tags(r2) == old(self).spec_tags(r2));
                assert(self.spec_tags(r2) == m4.spec_tags(r2));
            }
            assert(self.spec_tags(repo@) == m4.spec_tags(repo@));
            assert forall|r2: Seq<char>| r2 != repo@ implies self.spec_index(r2) == old(
                self,
            ).spec_index(r2) by {
                assert(m4.spec_index(r2) == old(self).spec_index(r2));
                assert(self.spec_index(r2) == m4.spec_index(r2));
            }
            assert(self.spec_index(repo@) == m4.spec_index(repo@));
        }
        match dres {
            Ok(()) => Ok(()),
            Err(e) => Err(e),
        }
    }

    /// Deletes a blob by digest; the repository's index is not touched.
    pub fn delete_blob(&mut self, repo: &String, digest: &String) -> (r: Result<
        (),
        StorageError,
    >)
        requires
            old(self).wf(),
        ensures
            final(self).wf(),
            same_catalog(*old(self), *final(self)),
            final(self).cache_v() == old(self).cache_v(),
            match r {
                Ok(()) => old(self).primary_v().contains_key(blob_path(repo@, digest@))
                    && final(self).primary_v() == old(self).primary_v().remove(
                    blob_path(repo@, digest@),
                ),
                Err(e) => e == StorageError::ContentNotFound && !old(self).primary_v()
                    .contains_key(blob_path(repo@, digest@)) && final(self).primary_v()
                    == old(self).primary_v(),
            },
    {
        let blob_p = create_blob_path(repo, digest);
        match self.primary.delete(&blob_p) {
            Ok(()) => Ok(()),
            Err(e) => Err(e),
        }
    }
}

fn has_claimed(ms: &Vec<Descriptor>, t: &String, key: &String) -> (r: bool)
    requires
        key@ == "org.opencontainers.image.ref.name"@,
    ensures
        r == tag_claimed(descs_of(ms@), t@),
{
    let mut i: usize = 0;
    while i < ms.len()
        invariant
            i <= ms@.len(),
            key@ == "org.opencontainers.image.ref.name"@,
            forall|j: int| 0 <= j < i ==> tag_of(#[trigger] descs_of(ms@)[j]) != Some(t@),
        decreases ms@.len() - i,
    {
        proof {
            assert(descs_of(ms@)[i as int] == ms@[i as int]@);
        }
        let found = match get_annotation(&ms[i].annotations, key) {
            Some(v) => v == *t,
            None => false,
        };
        if found {
            proof {
                assert(tag_of(descs_of(ms@)[i as int]) == Some(t@));
            }
            return true;
        }
        proof {
            assert(tag_of(descs_of(ms@)[i as int]) != Some(t@));
        }
        i += 1;
    }
    false
}

/// The two backends and the repository catalog are unchanged.
pub open spec fn unchanged(a: Storage, b: Storage) -> bool {
    &&& b.primary_v() == a.primary_v()
    &&& b.cache_v() == a.cache_v()
    &&& same_catalog(a, b)
}

/// Every repository's index and tag list are unchanged.
pub open spec fn same_catalog(a: Storage, b: Storage) -> bool {
    &&& forall|r2: Seq<char>| #[trigger] b.spec_index(r2) == a.spec_index(r2)
    &&& forall|r2: Seq<char>| #[trigger] b.spec_tags(r2) == a.spec_tags(r2)
}

/// How the payload of a manifest push is parsed: by its media type, through
/// the image-manifest or image-index reader; any other media type is not
/// parsed at all.
pub open spec fn payload_parse(mt: Seq<char>, data: Seq<u8>) -> Option<
    (Option<Seq<char>>, Map<Seq<char>, Seq<char>>),
> {
    if mt == "application/vnd.oci.image.manifest.v1+json"@ {
        manifest_parse(data)
    } else if mt == "application/vnd.oci.image.index.v1+json"@ {
        index_parse(data)
    } else {
        Some((None, Map::empty()))
    }
}

/// The digest under which a pushed manifest's bytes are stored: the
/// reference itself when the client pushed by digest, else the computed
/// digest of the bytes.
pub open spec fn stored_ref(tag: Seq<char>, data: Seq<u8>) -> Seq<char> {
    if is_digest_ref(tag) {
        tag
    } else {
        digest_of(data)
    }
}

/// The descriptor `write_manifest` appends for a pushed payload.
pub open spec fn pushed_descriptor(
    d: DescV,
    mt: Seq<char>,
    size: u64,
    data: Seq<u8>,
    tag: Seq<char>,
    amap: Map<Seq<char>, Seq<char>>,
) -> bool {
    &&& d.media_type == mt
    &&& d.size == size
    &&& d.digest == digest_of(data)
    &&& d.artifact_type is None
    &&& ann_keys_distinct(d.annotations)
    &&& ann_map(d.annotations) == if is_digest_ref(tag) {
        amap
    } else {
        amap.insert("org.opencontainers.image.ref.name"@, tag)
    }
    &&& (!is_digest_ref(tag) ==> tag_of(d) == Some(tag))
}

/// What resolving a reference against `s` yields: the blob's bytes for a
/// digest reference, the first tag match's blob for a tag, `None` when
/// nothing resolves.
pub open spec fn manifest_lookup(s: Storage, repo: Seq<char>, reference: Seq<char>) -> Option<
    Seq<u8>,
> {
    if is_digest_ref(reference) {
        if s.primary_v().contains_key(blob_path(repo, reference)) {
            Some(s.primary_v()[blob_path(repo, reference)])
        } else {
            None
        }
    } else {
        match first_tagged(s.index_or_init(repo).manifests, reference) {
            Some(d) => if s.primary_v().contains_key(blob_path(repo, d.digest)) {
                Some(s.primary_v()[blob_path(repo, d.digest)])
            } else {
                None
            },
            None => None,
        }
    }
}

/// What reading the blob at `repo/<name>/blobs/<digest>` from `s`'s primary
/// backend returns.
pub open spec fn blob_read_result(
    s: Storage,
    repo: Seq<char>,
    digest: Seq<char>,
    r: Result<Vec<u8>, StorageError>,
) -> bool {
    match r {
        Ok(d) => s.primary_v().contains_key(blob_path(repo, digest)) && d@
            == s.primary_v()[blob_path(repo, digest)],
        Err(e) => e == StorageError::ContentNotFound && !s.primary_v().contains_key(
            blob_path(repo, digest),
        ),
    }
}

} // verus!
