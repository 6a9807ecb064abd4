//! Content addressing: SHA-256 digests in their `sha256:<hex>` text form,
//! recognition of digest references, and the derivation of backend paths for
//! blobs and upload scratch files.

use vstd::prelude::*;

verus! {

/// The SHA-256 of a byte string, as the hash function itself computes it.
pub uninterp spec fn sha256_of(data: Seq<u8>) -> Seq<u8>;

/// Relies on sha2's `Sha256` (through the `Digest` trait): the hash depends
/// on the input bytes alone, and the output is 32 bytes long.
#[verifier::external_body]
fn sha256_bytes(data: &Vec<u8>) -> (r: Vec<u8>)
    ensures
        r@ == sha256_of(data@),
        r@.len() == 32,
{
    let mut hasher = <sha2::Sha256 as sha2::Digest>::new();
    sha2::Digest::update(&mut hasher, data.as_slice());
    let out = sha2::Digest::finalize(hasher);
    out.as_slice().to_vec()
}

/// The lowercase hex digit for a value below sixteen.
pub open spec fn hex_char(n: int) -> char {
    if n == 0 { '0' }
    else if n == 1 { '1' }
    else if n == 2 { '2' }
    else if n == 3 { '3' }
    else if n == 4 { '4' }
    else if n == 5 { '5' }
    else if n == 6 { '6' }
    else if n == 7 { '7' }
    else if n == 8 { '8' }
    else if n == 9 { '9' }
    else if n == 10 { 'a' }
    else if n == 11 { 'b' }
    else if n == 12 { 'c' }
    else if n == 13 { 'd' }
    else if n == 14 { 'e' }
    else { 'f' }
}

/// Lowercase hex encoding, two digits per byte.
pub open spec fn hex_of(bytes: Seq<u8>) -> Seq<char>
    decreases bytes.len(),
{
    if bytes.len() == 0 {
        Seq::empty()
    } else {
        hex_of(bytes.drop_last()) + seq![
            hex_char(bytes.last() as int / 16),
            hex_char(bytes.last() as int % 16),
        ]
    }
}

pub proof fn lemma_hex_of_len(bytes: Seq<u8>)
    ensures
        hex_of(bytes).len() == 2 * bytes.len(),
    decreases bytes.len(),
{
    if bytes.len() > 0 {
        lemma_hex_of_len(bytes.drop_last());
    }
}

pub(crate) fn hex_digit(n: u8) -> (r: &'static str)
    requires
        n < 16,
    ensures
        r@ == seq![hex_char(n as int)],
{
    match n {
        0 => { let s = "0"; proof { reveal_strlit("0"); assert(s@ =~= seq![hex_char(0)]); } s }
        1 => { let s = "1"; proof { reveal_strlit("1"); assert(s@ =~= seq![hex_char(1)]); } s }
        2 => { let s = "2"; proof { reveal_strlit("2"); assert(s@ =~= seq![hex_char(2)]); } s }
        3 => { let s = "3"; proof { reveal_strlit("3"); assert(s@ =~= seq![hex_char(3)]); } s }
        4 => { let s = "4"; proof { reveal_strlit("4"); assert(s@ =~= seq![hex_char(4)]); } s }
        5 => { let s = "5"; proof { reveal_strlit("5"); assert(s@ =~= seq![hex_char(5)]); } s }
        6 => { let s = "6"; proof { reveal_strlit("6"); assert(s@ =~= seq![hex_char(6)]); } s }
        7 => { let s = "7"; proof { reveal_strlit("7"); assert(s@ =~= seq![hex_char(7)]); } s }
        8 => { let s = "8"; proof { reveal_strlit("8"); assert(s@ =~= seq![hex_char(8)]); } s }
        9 => { let s = "9"; proof { reveal_strlit("9"); assert(s@ =~= seq![hex_char(9)]); } s }
        10 => { let s = "a"; proof { reveal_strlit("a"); assert(s@ =~= seq![hex_char(10)]); } s }
        11 => { let s = "b"; proof { reveal_strlit("b"); assert(s@ =~= seq![hex_char(11)]); } s }
        12 => { let s = "c"; proof { reveal_strlit("c"); assert(s@ =~= seq![hex_char(12)]); } s }
        13 => { let s = "d"; proof { reveal_strlit("d"); assert(s@ =~= seq![hex_char(13)]); } s }
        14 => { let s = "e"; proof { reveal_strlit("e"); assert(s@ =~= seq![hex_char(14)]); } s }
        _ => { let s = "f"; proof { reveal_strlit("f"); assert(s@ =~= seq![hex_char(15)]); } s }
    }
}

pub fn hex_string(bytes: &Vec<u8>) -> (r: String)
    ensures
        r@ == hex_of(bytes@),
{
    let mut s = String::new();
    let mut i: usize = 0;
    while i < bytes.len()
        invariant
            i <= bytes@.len(),
            s@ == hex_of(bytes@.take(i as int)),
        decreases bytes@.len() - i,
    {
        let b = bytes[i];
        s.append(hex_digit(b / 16));
        s.append(hex_digit(b % 16));
        proof {
            let t = bytes@.take(i + 1);
            assert(t.drop_last() =~= bytes@.take(i as int));
            assert(t.last() == bytes@[i as int]);
            assert(s@ =~= hex_of(t));
        }
        i += 1;
    }
    proof {
        assert(bytes@.take(bytes@.len() as int) =~= bytes@);
    }
    s
}

/// The text form of the digest of `data`: `sha256:` followed by 64 lowercase
/// hex digits.
pub open spec fn digest_of(data: Seq<u8>) -> Seq<char> {
    "sha256:"@ + hex_of(sha256_of(data))
}

/// Whether a reference string addresses content by digest rather than by tag.
pub open spec fn is_digest_ref(s: Seq<char>) -> bool {
    s.len() >= 7 && s.subrange(0, 7) == "sha256:"@
}

pub fn digest_from_content(data: &Vec<u8>) -> (r: String)
    ensures
        r@ == digest_of(data@),
        is_digest_ref(r@),
        r@.len() == 71,
{
    let hash = sha256_bytes(data);
    let hex = hex_string(&hash);
    let r = String::from_str("sha256:").concat(hex.as_str());
    proof {
        reveal_strlit("sha256:");
        lemma_hex_of_len(sha256_of(data@));
        assert(r@.subrange(0, 7) =~= "sha256:"@);
    }
    r
}

pub fn is_digest_reference(s: &String) -> (r: bool)
    ensures
        r == is_digest_ref(s@),
{
    let n = s.as_str().unicode_len();
    if n < 7 {
        false
    } else {
        let p = String::from_str(s.as_str().substring_char(0, 7));
        p == String::from_str("sha256:")
    }
}

/// Every well-formed digest string is recognized as a digest reference.
pub proof fn lemma_digest_is_ref(data: Seq<u8>)
    ensures
        is_digest_ref(digest_of(data)),
{
    reveal_strlit("sha256:");
    assert(digest_of(data).subrange(0, 7) =~= "sha256:"@);
}

/// Backend path of a blob: `repo/<name>/blobs/<digest>`.
pub open spec fn blob_path(repo: Seq<char>, digest: Seq<char>) -> Seq<char> {
    "repo/"@ + repo + "/blobs/"@ + digest
}

/// Backend path of an upload scratch file: `repo/<name>/.cache/<uuid>`.
pub open spec fn upload_path(repo: Seq<char>, uuid: Seq<char>) -> Seq<char> {
    "repo/"@ + repo + "/.cache/"@ + uuid
}

pub fn create_blob_path(repo: &String, digest: &String) -> (r: String)
    ensures
        r@ == blob_path(repo@, digest@),
{
    let r = String::from_str("repo/").concat(repo.as_str()).concat("/blobs/").concat(
        digest.as_str(),
    );
    proof {
        assert(r@ =~= blob_path(repo@, digest@));
    }
    r
}

pub fn create_upload_path(repo: &String, uuid: &String) -> (r: String)
    ensures
        r@ == upload_path(repo@, uuid@),
{
    let r = String::from_str("repo/").concat(repo.as_str()).concat("/.cache/").concat(
        uuid.as_str(),
    );
    proof {
        assert(r@ =~= upload_path(repo@, uuid@));
    }
    r
}

/// Backend path of a repository's stored index: `repo/<name>/index.json`.
pub open spec fn index_path(repo: Seq<char>) -> Seq<char> {
    "repo/"@ + repo + "/index.json"@
}

/// Backend path of a repository's stored tag list: `repo/<name>/tags.json`.
pub open spec fn tags_path(repo: Seq<char>) -> Seq<char> {
    "repo/"@ + repo + "/tags.json"@
}

pub fn create_index_path(repo: &String) -> (r: String)
    ensures
        r@ == index_path(repo@),
{
    let r = String::from_str("repo/").concat(repo.as_str()).concat("/index.json");
    proof {
        assert(r@ =~= index_path(repo@));
    }
    r
}

pub fn create_tags_path(repo: &String) -> (r: String)
    ensures
        r@ == tags_path(repo@),
{
    let r = String::from_str("repo/").concat(repo.as_str()).concat("/tags.json");
    proof {
        assert(r@ =~= tags_path(repo@));
    }
    r
}

/// Within one repository a blob path never collides with the index path:
/// right after `repo/<name>/` the one continues with `blobs/`, the other
/// with `index.json`.
pub proof fn lemma_blob_path_ne_index_path(repo: Seq<char>, digest: Seq<char>)
    ensures
        blob_path(repo, digest) != index_path(repo),
{
    reveal_strlit("repo/");
    reveal_strlit("/blobs/");
    reveal_strlit("/index.json");
    let b = blob_path(repo, digest);
    let ix = index_path(repo);
    let k = 5 + repo.len() + 1;
    assert(b[k as int] == "/blobs/"@[1]);
    assert(ix[k as int] == "/index.json"@[1]);
    if b == ix {
        assert(b[k as int] == ix[k as int]);
        assert(false);
    }
}

} // verus!
