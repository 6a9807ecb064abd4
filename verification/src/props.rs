//! The registry's laws: what holds across sequences of operations, proved
//! once and for all over the engine's contracts. Each law's premises are
//! exactly the postconditions of the operations it chains together.

use vstd::prelude::*;

use crate::common::TagsV;
use crate::content::{blob_path, digest_of, is_digest_ref, lemma_digest_is_ref, upload_path};
use crate::image::{strip_claimed, tag_claimed, DescV};
use crate::storage::{manifest_lookup, stored_ref, Storage};

verus! {

/// A manifest written through `write_manifest` can be fetched back by its
/// stored digest, and the bytes are the bytes that were pushed. The premise
/// is `write_manifest`'s postcondition on the primary store — the blob
/// insert followed by the persisted `index.json` write — and the conclusion
/// is what `get_manifest` resolves for that digest.
pub proof fn lemma_manifest_digest_round_trip(
    s0: Storage,
    s1: Storage,
    repo: Seq<char>,
    tag: Seq<char>,
    data: Seq<u8>,
    index_bytes: Seq<u8>,
)
    requires
        s1.primary_v() == s0.primary_v().insert(
            blob_path(repo, stored_ref(tag, data)),
            data,
        ).insert(crate::content::index_path(repo), index_bytes),
    ensures
        manifest_lookup(s1, repo, stored_ref(tag, data)) == Some(data),
{
    if !is_digest_ref(tag) {
        lemma_digest_is_ref(data);
    }
    crate::content::lemma_blob_path_ne_index_path(repo, stored_ref(tag, data));
}

/// A blob promoted to `repo/<name>/blobs/<digest>` reads back unchanged:
/// push then pull by digest yields identical bytes. The premise is the
/// promote step's postcondition; the conclusion is what `get_blobs` serves.
pub proof fn lemma_blob_round_trip(
    s0: Storage,
    s1: Storage,
    repo: Seq<char>,
    digest: Seq<char>,
    content: Seq<u8>,
)
    requires
        s1.primary_v() == s0.primary_v().insert(blob_path(repo, digest), content),
    ensures
        s1.primary_v().contains_key(blob_path(repo, digest)),
        s1.primary_v()[blob_path(repo, digest)] == content,
{
}

/// A tag registered by a non-digest `write_manifest` appears in the
/// repository's tag list. The premise is `write_manifest`'s postcondition
/// on the tag list.
pub proof fn lemma_pushed_tag_listed(s0: Storage, s1: Storage, repo: Seq<char>, tag: Seq<char>)
    requires
        s1.spec_tags(repo) == Some(
            TagsV {
                name: s0.tags_or_init(repo).name,
                tags: s0.tags_or_init(repo).tags.push(tag),
            },
        ),
    ensures
        s1.spec_tags(repo) matches Some(t) && t.tags.contains(tag),
{
    let t = s1.spec_tags(repo)->Some_0;
    assert(t.tags[t.tags.len() - 1] == tag);
}

/// The bytes of all appended chunks, in order.
pub open spec fn concat_chunks(chunks: Seq<Seq<u8>>) -> Seq<u8>
    decreases chunks.len(),
{
    if chunks.len() == 0 {
        Seq::empty()
    } else {
        concat_chunks(chunks.drop_last()) + chunks.last()
    }
}

/// The total size of all appended chunks.
pub open spec fn sum_lens(chunks: Seq<Seq<u8>>) -> int
    decreases chunks.len(),
{
    if chunks.len() == 0 {
        0
    } else {
        sum_lens(chunks.drop_last()) + chunks.last().len()
    }
}

/// The cache contents after a run of successful chunk appends to one
/// scratch path: each step is `update_blob_upload`'s success postcondition.
pub open spec fn cache_after_chunks(
    c: Map<Seq<char>, Seq<u8>>,
    p: Seq<char>,
    chunks: Seq<Seq<u8>>,
) -> Map<Seq<char>, Seq<u8>>
    decreases chunks.len(),
{
    if chunks.len() == 0 {
        c
    } else {
        let c1 = cache_after_chunks(c, p, chunks.drop_last());
        c1.insert(p, c1[p] + chunks.last())
    }
}

/// At every moment of an upload, the scratch file holds exactly the
/// concatenation of the chunks appended so far, so its `stat` length is the
/// sum of their sizes.
pub proof fn lemma_upload_length(
    c: Map<Seq<char>, Seq<u8>>,
    p: Seq<char>,
    chunks: Seq<Seq<u8>>,
)
    requires
        c.contains_key(p),
    ensures
        cache_after_chunks(c, p, chunks).contains_key(p),
        cache_after_chunks(c, p, chunks)[p] == c[p] + concat_chunks(chunks),
        cache_after_chunks(c, p, chunks)[p].len() == c[p].len() + sum_lens(chunks),
    decreases chunks.len(),
{
    if chunks.len() == 0 {
        assert(c[p] + concat_chunks(chunks) =~= c[p]);
    } else {
        lemma_upload_length(c, p, chunks.drop_last());
        assert(c[p] + concat_chunks(chunks.drop_last()) + chunks.last() =~= c[p]
            + concat_chunks(chunks));
    }
}

/// The chunked-upload round trip: create an upload, append chunks summing
/// to `B`, finalize; the blob then stored at the digest's path is exactly
/// `B`. The premises are the create and promote postconditions with the
/// appends modelled by `cache_after_chunks`.
pub proof fn lemma_chunked_upload_round_trip(
    prim0: Map<Seq<char>, Seq<u8>>,
    c0: Map<Seq<char>, Seq<u8>>,
    repo: Seq<char>,
    uuid: Seq<char>,
    chunks: Seq<Seq<u8>>,
    digest: Seq<char>,
)
    ensures
        ({
            let p = upload_path(repo, uuid);
            let c2 = cache_after_chunks(c0.insert(p, Seq::empty()), p, chunks);
            let prim1 = prim0.insert(blob_path(repo, digest), c2[p]);
            &&& c2[p] == concat_chunks(chunks)
            &&& c2[p].len() == sum_lens(chunks)
            &&& prim1[blob_path(repo, digest)] == concat_chunks(chunks)
        }),
{
    let p = upload_path(repo, uuid);
    let c1 = c0.insert(p, Seq::<u8>::empty());
    lemma_upload_length(c1, p, chunks);
    assert(c1[p] + concat_chunks(chunks) =~= concat_chunks(chunks));
}

/// The digest and the blob path of a push depend on the pushed bytes
/// alone: identical bytes always yield the same digest and the same final
/// path, which is what makes re-pushing idempotent at the blob layer.
pub proof fn lemma_digest_deterministic(data1: Seq<u8>, data2: Seq<u8>, repo: Seq<char>)
    requires
        data1 == data2,
    ensures
        digest_of(data1) == digest_of(data2),
        blob_path(repo, digest_of(data1)) == blob_path(repo, digest_of(data2)),
{
}

/// On a repository seen for the first time, the tag list is initialized
/// with the repository's own name, so the list a push registers its tag in
/// carries that name. The premise is `write_manifest`'s postcondition on a
/// store whose tag list did not exist yet.
pub proof fn lemma_fresh_repo_tag_name(
    s0: Storage,
    s1: Storage,
    repo: Seq<char>,
    tag: Seq<char>,
)
    requires
        s0.spec_tags(repo) is None,
        s1.spec_tags(repo) == Some(
            TagsV {
                name: s0.tags_or_init(repo).name,
                tags: s0.tags_or_init(repo).tags.push(tag),
            },
        ),
    ensures
        s1.spec_tags(repo) matches Some(t) && t.name == repo,
{
}

/// A tag push leaves its claim in the index: the descriptor appended last
/// carries the tag as its ref-name annotation, so the index claims the tag.
pub proof fn lemma_appended_tag_claimed(ms: Seq<DescV>, tag: Seq<char>)
    requires
        ms.len() > 0,
        crate::image::tag_of(ms.last()) == Some(tag),
    ensures
        tag_claimed(ms, tag),
{
    assert(crate::image::tag_of(ms[ms.len() - 1]) == Some(tag));
}

proof fn lemma_strip_claimed_absent(tags: Seq<Seq<char>>, ms: Seq<DescV>, x: Seq<char>)
    requires
        tag_claimed(ms, x),
    ensures
        !strip_claimed(tags, ms).contains(x),
    decreases tags.len(),
{
    if tags.len() > 0 {
        lemma_strip_claimed_absent(tags.drop_last(), ms, x);
        let s = strip_claimed(tags, ms);
        let sd = strip_claimed(tags.drop_last(), ms);
        if s.contains(x) {
            let i = choose|i: int| 0 <= i < s.len() && s[i] == x;
            if i < sd.len() {
                assert(sd[i] == x);
            } else {
                assert(!tag_claimed(ms, tags.last()));
                assert(s[i] == tags.last());
            }
            assert(false);
        }
    }
}

/// Pushing a manifest under a tag and then deleting by digest removes the
/// tag: after `delete_manifest` on a repository whose index claims the tag,
/// the tag is absent from the tag list. The premises are the claim the push
/// left in the index and `delete_manifest`'s postcondition on the tag list.
pub proof fn lemma_delete_clears_tag(
    s1: Storage,
    s2: Storage,
    repo: Seq<char>,
    tag: Seq<char>,
)
    requires
        tag_claimed(s1.index_or_init(repo).manifests, tag),
        s2.spec_tags(repo) == Some(
            TagsV {
                name: s1.tags_or_init(repo).name,
                tags: strip_claimed(
                    s1.tags_or_init(repo).tags,
                    s1.index_or_init(repo).manifests,
                ),
            },
        ),
    ensures
        s2.spec_tags(repo) matches Some(t) && !t.tags.contains(tag),
{
    lemma_strip_claimed_absent(
        s1.tags_or_init(repo).tags,
        s1.index_or_init(repo).manifests,
        tag,
    );
}

} // verus!
