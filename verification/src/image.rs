//! The library's own model of the OCI image entities the registry works
//! with: annotations, descriptors and the per-repository image index. The
//! index doubles as the repository catalog; a descriptor may carry the
//! human tag as the `org.opencontainers.image.ref.name` annotation.

use vstd::prelude::*;

verus! {

pub struct Annotation {
    pub key: String,
    pub value: String,
}

impl View for Annotation {
    type V = (Seq<char>, Seq<char>);

    open spec fn view(&self) -> (Seq<char>, Seq<char>) {
        (self.key@, self.value@)
    }
}

impl Clone for Annotation {
    fn clone(&self) -> (r: Self)
        ensures
            r@ == self@,
    {
        Annotation { key: self.key.clone(), value: self.value.clone() }
    }
}

/// The views of a sequence of annotations.
pub open spec fn anns_of(v: Seq<Annotation>) -> Seq<(Seq<char>, Seq<char>)> {
    v.map_values(|a: Annotation| a@)
}

/// The value under `k`, the last entry winning, as in a map built from the
/// entries in order.
pub open spec fn ann_lookup(s: Seq<(Seq<char>, Seq<char>)>, k: Seq<char>) -> Option<Seq<char>>
    decreases s.len(),
{
    if s.len() == 0 {
        None
    } else if s.last().0 == k {
        Some(s.last().1)
    } else {
        ann_lookup(s.drop_last(), k)
    }
}

/// The map holding the entries, later entries winning.
pub open spec fn ann_map(s: Seq<(Seq<char>, Seq<char>)>) -> Map<Seq<char>, Seq<char>>
    decreases s.len(),
{
    if s.len() == 0 {
        Map::empty()
    } else {
        ann_map(s.drop_last()).insert(s.last().0, s.last().1)
    }
}

pub open spec fn ann_keys_distinct(s: Seq<(Seq<char>, Seq<char>)>) -> bool {
    forall|i: int, j: int| 0 <= i < j < s.len() ==> s[i].0 != s[j].0
}

pub proof fn lemma_ann_map_contains(s: Seq<(Seq<char>, Seq<char>)>, k: Seq<char>)
    ensures
        ann_map(s).contains_key(k) <==> exists|i: int| 0 <= i < s.len() && s[i].0 == k,
    decreases s.len(),
{
    if s.len() > 0 {
        let dl = s.drop_last();
        lemma_ann_map_contains(dl, k);
        if s.last().0 == k {
            assert(s[s.len() - 1].0 == k);
        } else {
            if exists|i: int| 0 <= i < s.len() && s[i].0 == k {
                let i = choose|i: int| 0 <= i < s.len() && s[i].0 == k;
                assert(dl[i].0 == k);
            }
            if exists|i: int| 0 <= i < dl.len() && dl[i].0 == k {
                let i = choose|i: int| 0 <= i < dl.len() && dl[i].0 == k;
                assert(s[i].0 == k);
            }
        }
    }
}

/// Looking an entry up agrees with the map of the entries.
pub proof fn lemma_ann_lookup_map(s: Seq<(Seq<char>, Seq<char>)>, k: Seq<char>)
    ensures
        ann_lookup(s, k) == if ann_map(s).contains_key(k) {
            Some(ann_map(s)[k])
        } else {
            None::<Seq<char>>
        },
    decreases s.len(),
{
    if s.len() > 0 {
        lemma_ann_lookup_map(s.drop_last(), k);
    }
}

/// Finds the value annotated under `key`.
pub fn get_annotation(anns: &Vec<Annotation>, key: &String) -> (r: Option<String>)
    ensures
        match r {
            Some(v) => ann_lookup(anns_of(anns@), key@) == Some(v@),
            None => ann_lookup(anns_of(anns@), key@) is None,
        },
{
    proof {
        assert(anns_of(anns@).take(anns@.len() as int) =~= anns_of(anns@));
    }
    let mut i: usize = anns.len();
    while i > 0
        invariant
            i <= anns@.len(),
            ann_lookup(anns_of(anns@), key@) == ann_lookup(
                anns_of(anns@).take(i as int),
                key@,
            ),
        decreases i,
    {
        let ghost t = anns_of(anns@).take(i as int);
        proof {
            assert(anns_of(anns@)[i - 1] == anns@[i - 1]@);
            assert(t.last() == anns_of(anns@)[i - 1]);
            assert(t.drop_last() =~= anns_of(anns@).take(i - 1));
        }
        if anns[i - 1].key == *key {
            let v = anns[i - 1].value.clone();
            proof {
                assert(ann_lookup(t, key@) == Some(anns@[i - 1].value@));
            }
            return Some(v);
        }
        proof {
            assert(t.last().0 != key@);
            assert(ann_lookup(t, key@) == ann_lookup(anns_of(anns@).take(i - 1), key@));
        }
        i -= 1;
    }
    None
}

pub fn clone_annotations(v: &Vec<Annotation>) -> (r: Vec<Annotation>)
    ensures
        anns_of(r@) == anns_of(v@),
{
    let mut r: Vec<Annotation> = Vec::new();
    let mut i: usize = 0;
    while i < v.len()
        invariant
            i <= v@.len(),
            r@.len() == i,
            forall|j: int| 0 <= j < i ==> r@[j]@ == v@[j]@,
        decreases v@.len() - i,
    {
        r.push(v[i].clone());
        i += 1;
    }
    assert forall|j: int| 0 <= j < v@.len() implies anns_of(r@)[j] == anns_of(v@)[j] by {
        assert(r@[j]@ == v@[j]@);
    }
    assert(anns_of(r@) =~= anns_of(v@));
    r
}

/// Replaces any entry under `key` and appends `key: value`, so that the
/// resulting entries keep distinct keys and describe the map of the old
/// entries with `key` bound to `value`.
pub fn set_annotation(anns: &Vec<Annotation>, key: &String, value: &String) -> (r: Vec<
    Annotation,
>)
    requires
        ann_keys_distinct(anns_of(anns@)),
    ensures
        ann_keys_distinct(anns_of(r@)),
        ann_map(anns_of(r@)) == ann_map(anns_of(anns@)).insert(key@, value@),
{
    let mut f: Vec<Annotation> = Vec::new();
    let mut i: usize = 0;
    while i < anns.len()
        invariant
            i <= anns@.len(),
            ann_keys_distinct(anns_of(anns@)),
            ann_keys_distinct(anns_of(f@)),
            forall|j: int| 0 <= j < f@.len() ==> (#[trigger] anns_of(f@)[j]).0 != key@,
            ann_map(anns_of(f@)) =~= ann_map(anns_of(anns@).take(i as int)).remove(key@),
        decreases anns@.len() - i,
    {
        let ghost t = anns_of(anns@).take(i + 1);
        proof {
            assert(anns_of(anns@)[i as int] == anns@[i as int]@);
            assert(t.last() == anns_of(anns@)[i as int]);
            assert(t.drop_last() =~= anns_of(anns@).take(i as int));
        }
        let ghost pre = f@;
        if !(anns[i].key == *key) {
            proof {
                // the key about to be pushed is not among f's keys
                lemma_ann_map_contains(anns_of(pre), anns@[i as int].key@);
                lemma_ann_map_contains(
                    anns_of(anns@).take(i as int),
                    anns@[i as int].key@,
                );
                if exists|j: int|
                    0 <= j < anns_of(pre).len() && anns_of(pre)[j].0 == anns@[
                        i as int
                    ].key@ {
                    let i0 = choose|i0: int|
                        0 <= i0 < anns_of(anns@).take(i as int).len() && anns_of(
                            anns@,
                        ).take(i as int)[i0].0 == anns@[i as int].key@;
                    assert(anns_of(anns@)[i0].0 == anns_of(anns@)[i as int].0);
                    assert(false);
                }
            }
            f.push(anns[i].clone());
            proof {
                assert(anns_of(f@).drop_last() =~= anns_of(pre));
                assert(anns_of(f@).last() == anns_of(anns@)[i as int]);
                assert forall|a: int, b: int|
                    0 <= a < b < anns_of(f@).len() implies anns_of(f@)[a].0
                    != anns_of(f@)[b].0 by {
                    if b < anns_of(f@).len() - 1 {
                        assert(anns_of(pre)[a].0 != anns_of(pre)[b].0);
                    } else {
                        assert(anns_of(f@)[a] == anns_of(pre)[a]);
                    }
                }
                assert forall|j: int| 0 <= j < f@.len() implies (#[trigger] anns_of(
                    f@,
                )[j]).0 != key@ by {
                    if j < f@.len() - 1 {
                        assert(anns_of(f@)[j] == anns_of(pre)[j]);
                    } else {
                        assert(anns_of(f@)[j] == anns_of(anns@)[i as int]);
                    }
                }
                assert(ann_map(anns_of(f@)) =~= ann_map(t).remove(key@));
            }
        } else {
            proof {
                assert(ann_map(anns_of(f@)) =~= ann_map(t).remove(key@));
            }
        }
        i += 1;
    }
    proof {
        assert(anns_of(anns@).take(anns@.len() as int) =~= anns_of(anns@));
    }
    let ghost filtered = f@;
    f.push(Annotation { key: key.clone(), value: value.clone() });
    proof {
        assert(anns_of(f@).drop_last() =~= anns_of(filtered));
        assert(anns_of(f@).last().0 == key@);
        assert(anns_of(f@).last().1 == value@);
        assert forall|a: int, b: int|
            0 <= a < b < anns_of(f@).len() implies anns_of(f@)[a].0 != anns_of(f@)[b].0 by {
            if b < anns_of(f@).len() - 1 {
                assert(anns_of(filtered)[a].0 != anns_of(filtered)[b].0);
            } else {
                assert(anns_of(f@)[a] == anns_of(filtered)[a]);
                assert(anns_of(filtered)[a].0 != key@);
            }
        }
        assert(ann_map(anns_of(f@)) =~= ann_map(anns_of(anns@)).insert(key@, value@));
    }
    f
}

/// A descriptor: the reference unit inside an image index.
pub struct Descriptor {
    pub media_type: String,
    pub size: u64,
    pub digest: String,
    pub annotations: Vec<Annotation>,
    pub artifact_type: Option<String>,
}

#[verifier::ext_equal]
pub struct DescV {
    pub media_type: Seq<char>,
    pub size: u64,
    pub digest: Seq<char>,
    pub annotations: Seq<(Seq<char>, Seq<char>)>,
    pub artifact_type: Option<Seq<char>>,
}

impl View for Descriptor {
    type V = DescV;

    open spec fn view(&self) -> DescV {
        DescV {
            media_type: self.media_type@,
            size: self.size,
            digest: self.digest@,
            annotations: anns_of(self.annotations@),
            artifact_type: match self.artifact_type {
                Some(s) => Some(s@),
                None => None,
            },
        }
    }
}

impl Clone for Descriptor {
    fn clone(&self) -> (r: Self)
        ensures
            r@ == self@,
    {
        let r = Descriptor {
            media_type: self.media_type.clone(),
            size: self.size,
            digest: self.digest.clone(),
            annotations: clone_annotations(&self.annotations),
            artifact_type: match &self.artifact_type {
                Some(s) => Some(s.clone()),
                None => None,
            },
        };
        proof {
            assert(r@ =~= self@);
        }
        r
    }
}

/// The tag a descriptor resolves, if it carries the ref-name annotation.
pub open spec fn tag_of(d: DescV) -> Option<Seq<char>> {
    ann_lookup(d.annotations, "org.opencontainers.image.ref.name"@)
}

/// The first descriptor annotated with the given tag, in index order: the
/// match `get_manifest` resolves a tag to.
pub open spec fn first_tagged(ms: Seq<DescV>, tag: Seq<char>) -> Option<DescV>
    decreases ms.len(),
{
    if ms.len() == 0 {
        None
    } else if tag_of(ms[0]) == Some(tag) {
        Some(ms[0])
    } else {
        first_tagged(ms.drop_first(), tag)
    }
}

/// Whether some descriptor carries the given tag as its ref-name
/// annotation.
pub open spec fn tag_claimed(ms: Seq<DescV>, t: Seq<char>) -> bool {
    exists|i: int| 0 <= i < ms.len() && tag_of(ms[i]) == Some(t)
}

/// The tag list with every tag removed that any descriptor of `ms` claims
/// through its ref-name annotation; order and multiplicity of the rest are
/// kept.
pub open spec fn strip_claimed(tags: Seq<Seq<char>>, ms: Seq<DescV>) -> Seq<Seq<char>>
    decreases tags.len(),
{
    if tags.len() == 0 {
        Seq::empty()
    } else {
        strip_claimed(tags.drop_last(), ms) + if tag_claimed(ms, tags.last()) {
            Seq::empty()
        } else {
            seq![tags.last()]
        }
    }
}

/// The descriptors whose digest is not the one being deleted, in order.
pub open spec fn drop_digest(ms: Seq<DescV>, dg: Seq<char>) -> Seq<DescV>
    decreases ms.len(),
{
    if ms.len() == 0 {
        Seq::empty()
    } else {
        drop_digest(ms.drop_last(), dg) + if ms.last().digest == dg {
            Seq::empty()
        } else {
            seq![ms.last()]
        }
    }
}

/// The views of a sequence of descriptors.
pub open spec fn descs_of(v: Seq<Descriptor>) -> Seq<DescV> {
    v.map_values(|d: Descriptor| d@)
}

pub fn clone_descriptors(v: &Vec<Descriptor>) -> (r: Vec<Descriptor>)
    ensures
        descs_of(r@) == descs_of(v@),
{
    let mut r: Vec<Descriptor> = Vec::new();
    let mut i: usize = 0;
    while i < v.len()
        invariant
            i <= v@.len(),
            r@.len() == i,
            forall|j: int| 0 <= j < i ==> r@[j]@ == v@[j]@,
        decreases v@.len() - i,
    {
        r.push(v[i].clone());
        i += 1;
    }
    assert forall|j: int| 0 <= j < v@.len() implies descs_of(r@)[j] == descs_of(v@)[j] by {
        assert(r@[j]@ == v@[j]@);
    }
    assert(descs_of(r@) =~= descs_of(v@));
    r
}

/// An OCI image index; also the per-repository catalog of manifests.
pub struct ImageIndex {
    pub schema_version: u32,
    pub media_type: String,
    pub manifests: Vec<Descriptor>,
}

#[verifier::ext_equal]
pub struct IndexV {
    pub schema_version: u32,
    pub media_type: Seq<char>,
    pub manifests: Seq<DescV>,
}

impl View for ImageIndex {
    type V = IndexV;

    open spec fn view(&self) -> IndexV {
        IndexV {
            schema_version: self.schema_version,
            media_type: self.media_type@,
            manifests: descs_of(self.manifests@),
        }
    }
}

impl Clone for ImageIndex {
    fn clone(&self) -> (r: Self)
        ensures
            r@ == self@,
    {
        let r = ImageIndex {
            schema_version: self.schema_version,
            media_type: self.media_type.clone(),
            manifests: clone_descriptors(&self.manifests),
        };
        proof {
            assert(r@ =~= self@);
        }
        r
    }
}

/// The media type of an OCI image manifest payload.
pub fn manifest_media_type() -> (r: String)
    ensures
        r@ == "application/vnd.oci.image.manifest.v1+json"@,
{
    String::from_str("application/vnd.oci.image.manifest.v1+json")
}

/// The media type of an OCI image index payload.
pub fn index_media_type() -> (r: String)
    ensures
        r@ == "application/vnd.oci.image.index.v1+json"@,
{
    String::from_str("application/vnd.oci.image.index.v1+json")
}

/// The annotation key that carries a manifest's human tag.
pub fn ref_name_key() -> (r: String)
    ensures
        r@ == "org.opencontainers.image.ref.name"@,
{
    String::from_str("org.opencontainers.image.ref.name")
}

/// The view of a freshly initialized, empty image index.
pub open spec fn empty_index_v() -> IndexV {
    IndexV {
        schema_version: 2,
        media_type: "application/vnd.oci.image.index.v1+json"@,
        manifests: Seq::empty(),
    }
}

/// A freshly initialized, empty image index.
pub fn empty_index() -> (r: ImageIndex)
    ensures
        r@ == empty_index_v(),
{
    let r = ImageIndex {
        schema_version: 2,
        media_type: index_media_type(),
        manifests: Vec::new(),
    };
    proof {
        assert(r@ =~= empty_index_v());
    }
    r
}

} // verus!
