//! Small shared data types: the per-repository tag list and helpers over
//! sequences of strings.

use vstd::prelude::*;

verus! {

/// The views of a sequence of strings, element by element.
pub open spec fn str_views(s: Seq<String>) -> Seq<Seq<char>> {
    s.map_values(|x: String| x@)
}

pub fn clone_strings(v: &Vec<String>) -> (r: Vec<String>)
    ensures
        str_views(r@) == str_views(v@),
{
    let mut r: Vec<String> = Vec::new();
    let mut i: usize = 0;
    while i < v.len()
        invariant
            i <= v@.len(),
            r@.len() == i,
            forall|j: int| 0 <= j < i ==> r@[j]@ == v@[j]@,
        decreases v@.len() - i,
    {
        r.push(v[i].clone());
        i += 1;
    }
    assert forall|j: int| 0 <= j < v@.len() implies str_views(r@)[j] == str_views(v@)[j] by {
        assert(r@[j]@ == v@[j]@);
    }
    assert(str_views(r@) =~= str_views(v@));
    r
}

/// The tag list of one repository, mirrored at `repo/<name>/tags.json`.
pub struct Tags {
    pub name: String,
    pub tags: Vec<String>,
}

#[verifier::ext_equal]
pub struct TagsV {
    pub name: Seq<char>,
    pub tags: Seq<Seq<char>>,
}

impl View for Tags {
    type V = TagsV;

    open spec fn view(&self) -> TagsV {
        TagsV { name: self.name@, tags: str_views(self.tags@) }
    }
}

impl Clone for Tags {
    fn clone(&self) -> (r: Self)
        ensures
            r@ == self@,
    {
        let r = Tags { name: self.name.clone(), tags: clone_strings(&self.tags) };
        proof {
            assert(r@ =~= self@);
        }
        r
    }
}

} // verus!
