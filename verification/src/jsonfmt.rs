//! JSON framing for what the registry serves itself: tag lists, image
//! indexes and OCI error bodies. The library writes these bytes out
//! character by character, so their exact shape is part of its contract.

use vstd::prelude::*;

use crate::common::{str_views, Tags, TagsV};
use crate::content::{hex_char, hex_digit};
use crate::image::{descs_of, DescV, ImageIndex, IndexV};

verus! {

/// How one character is written inside a JSON string: quotes and
/// backslashes get a backslash escape, control characters a `\u00..`
/// escape, everything else passes through.
pub open spec fn esc_char(c: char) -> Seq<char> {
    if c == '"' || c == '\\' {
        seq!['\\', c]
    } else if (c as int) < 32 {
        seq!['\\', 'u', '0', '0', hex_char(c as int / 16), hex_char(c as int % 16)]
    } else {
        seq![c]
    }
}

/// A string's characters as they are written inside a JSON string literal.
pub open spec fn json_escape(s: Seq<char>) -> Seq<char>
    decreases s.len(),
{
    if s.len() == 0 {
        Seq::empty()
    } else {
        json_escape(s.drop_last()) + esc_char(s.last())
    }
}

pub fn json_escape_str(s: &String) -> (r: String)
    ensures
        r@ == json_escape(s@),
{
    let mut out = String::new();
    let n = s.as_str().unicode_len();
    proof {
        assert(s@.take(0) =~= Seq::<char>::empty());
    }
    let mut i: usize = 0;
    while i < n
        invariant
            i <= n,
            n == s@.len(),
            out@ == json_escape(s@.take(i as int)),
        decreases n - i,
    {
        proof {
            assert(s@.take(i + 1).drop_last() =~= s@.take(i as int));
            assert(s@.take(i + 1).last() == s@[i as int]);
        }
        let c = s.as_str().get_char(i);
        if c == '"' || c == '\\' {
            let bs = "\\";
            proof {
                reveal_strlit("\\");
            }
            out.append(bs);
            let piece = s.as_str().substring_char(i, i + 1);
            proof {
                assert(piece@ =~= seq![s@[i as int]]);
            }
            out.append(piece);
        } else if (c as u32) < 32 {
            let cv = c as u32;
            let pre = "\\u00";
            proof {
                reveal_strlit("\\u00");
            }
            out.append(pre);
            out.append(hex_digit((cv / 16) as u8));
            out.append(hex_digit((cv % 16) as u8));
        } else {
            let piece = s.as_str().substring_char(i, i + 1);
            proof {
                assert(piece@ =~= seq![s@[i as int]]);
            }
            out.append(piece);
        }
        proof {
            assert(out@ =~= json_escape(s@.take(i + 1)));
        }
        i += 1;
    }
    proof {
        assert(s@.take(n as int) =~= s@);
    }
    out
}

/// A number in decimal, most significant digit first.
pub open spec fn dec_digits(n: nat) -> Seq<char>
    decreases n,
{
    if n < 10 {
        seq![hex_char(n as int)]
    } else {
        dec_digits(n / 10) + seq![hex_char((n % 10) as int)]
    }
}

pub fn u64_to_dec(n: u64) -> (r: String)
    ensures
        r@ == dec_digits(n as nat),
    decreases n,
{
    if n < 10 {
        let r = String::from_str(hex_digit(n as u8));
        proof {
            assert(r@ =~= dec_digits(n as nat));
        }
        r
    } else {
        let mut s = u64_to_dec(n / 10);
        s.append(hex_digit((n % 10) as u8));
        proof {
            assert(s@ =~= dec_digits(n as nat));
        }
        s
    }
}

/// A JSON string literal: the escaped characters between double quotes.
pub open spec fn quoted(s: Seq<char>) -> Seq<char> {
    "\""@ + json_escape(s) + "\""@
}

pub fn quote_str(s: &String) -> (r: String)
    ensures
        r@ == quoted(s@),
{
    let q = "\"";
    proof {
        reveal_strlit("\"");
    }
    let mut out = String::from_str(q);
    out.append(json_escape_str(s).as_str());
    out.append(q);
    proof {
        assert(out@ =~= quoted(s@));
    }
    out
}

/// An OCI error body: `{"errors":[{"code":C,"message":M}]}`.
pub open spec fn error_body(code: Seq<char>, msg: Seq<char>) -> Seq<char> {
    "{\"errors\":[{\"code\":\""@ + code + "\",\"message\":"@ + quoted(msg) + "}]}"@
}

pub fn render_error(code: &str, msg: &String) -> (r: String)
    ensures
        r@ == error_body(code@, msg@),
{
    let mut out = String::from_str("{\"errors\":[{\"code\":\"");
    out.append(code);
    out.append("\",\"message\":");
    out.append(quote_str(msg).as_str());
    out.append("}]}");
    proof {
        assert(out@ =~= error_body(code@, msg@));
    }
    out
}

/// A comma-separated list of JSON string literals.
pub open spec fn joined_strings(tags: Seq<Seq<char>>) -> Seq<char>
    decreases tags.len(),
{
    if tags.len() == 0 {
        Seq::empty()
    } else if tags.len() == 1 {
        quoted(tags[0])
    } else {
        joined_strings(tags.drop_last()) + ","@ + quoted(tags.last())
    }
}

/// The tag-list body: `{"name":N,"tags":[T1,T2,...]}`.
pub open spec fn tags_json(t: TagsV) -> Seq<char> {
    "{\"name\":"@ + quoted(t.name) + ",\"tags\":["@ + joined_strings(t.tags) + "]}"@
}

pub fn render_tags(t: &Tags) -> (r: String)
    ensures
        r@ == tags_json(t@),
{
    let mut out = String::from_str("{\"name\":");
    out.append(quote_str(&t.name).as_str());
    out.append(",\"tags\":[");
    let ghost tv = str_views(t.tags@);
    proof {
        assert(tv.take(0) =~= Seq::<Seq<char>>::empty());
    }
    let mut list = String::new();
    let mut i: usize = 0;
    while i < t.tags.len()
        invariant
            i <= t.tags@.len(),
            tv == str_views(t.tags@),
            list@ == joined_strings(tv.take(i as int)),
        decreases t.tags@.len() - i,
    {
        proof {
            assert(tv.take(i + 1).drop_last() =~= tv.take(i as int));
            assert(tv.take(i + 1).last() == t.tags@[i as int]@);
            assert(tv.take(i + 1)[0] == tv[0]);
        }
        if i > 0 {
            let comma = ",";
            proof {
                reveal_strlit(",");
            }
            list.append(comma);
        }
        list.append(quote_str(&t.tags[i]).as_str());
        proof {
            assert(list@ =~= joined_strings(tv.take(i + 1)));
        }
        i += 1;
    }
    proof {
        assert(tv.take(t.tags@.len() as int) =~= tv);
    }
    out.append(list.as_str());
    out.append("]}");
    proof {
        assert(out@ =~= tags_json(t@));
    }
    out
}

/// A descriptor's annotations as a JSON object, entries in stored order.
pub open spec fn anns_json(anns: Seq<(Seq<char>, Seq<char>)>) -> Seq<char>
    decreases anns.len(),
{
    if anns.len() == 0 {
        Seq::empty()
    } else if anns.len() == 1 {
        quoted(anns[0].0) + ":"@ + quoted(anns[0].1)
    } else {
        anns_json(anns.drop_last()) + ","@ + quoted(anns.last().0) + ":"@ + quoted(
            anns.last().1,
        )
    }
}

/// One descriptor: media type, size and digest, then annotations and
/// artifact type only when present.
pub open spec fn desc_json(d: DescV) -> Seq<char> {
    "{\"mediaType\":"@ + quoted(d.media_type) + ",\"size\":"@ + dec_digits(d.size as nat)
        + ",\"digest\":"@ + quoted(d.digest) + (if d.annotations.len() > 0 {
        ",\"annotations\":{"@ + anns_json(d.annotations) + "}"@
    } else {
        Seq::empty()
    }) + (match d.artifact_type {
        Some(a) => ",\"artifactType\":"@ + quoted(a),
        None => Seq::empty(),
    }) + "}"@
}

/// The descriptor list, comma separated.
pub open spec fn descs_json(ms: Seq<DescV>) -> Seq<char>
    decreases ms.len(),
{
    if ms.len() == 0 {
        Seq::empty()
    } else if ms.len() == 1 {
        desc_json(ms[0])
    } else {
        descs_json(ms.drop_last()) + ","@ + desc_json(ms.last())
    }
}

/// An image-index body.
pub open spec fn index_json(ix: IndexV) -> Seq<char> {
    "{\"schemaVersion\":"@ + dec_digits(ix.schema_version as nat) + ",\"mediaType\":"@
        + quoted(ix.media_type) + ",\"manifests\":["@ + descs_json(ix.manifests) + "]}"@
}

fn render_desc(d: &crate::image::Descriptor) -> (r: String)
    ensures
        r@ == desc_json(d@),
{
    let mut out = String::from_str("{\"mediaType\":");
    out.append(quote_str(&d.media_type).as_str());
    out.append(",\"size\":");
    out.append(u64_to_dec(d.size).as_str());
    out.append(",\"digest\":");
    out.append(quote_str(&d.digest).as_str());
    if d.annotations.len() > 0 {
        out.append(",\"annotations\":{");
        let ghost av = crate::image::anns_of(d.annotations@);
        proof {
            assert(av.take(0) =~= Seq::<(Seq<char>, Seq<char>)>::empty());
        }
        let mut list = String::new();
        let mut i: usize = 0;
        while i < d.annotations.len()
            invariant
                i <= d.annotations@.len(),
                av == crate::image::anns_of(d.annotations@),
                list@ == anns_json(av.take(i as int)),
            decreases d.annotations@.len() - i,
        {
            proof {
                assert(av.take(i + 1).drop_last() =~= av.take(i as int));
                assert(av.take(i + 1).last() == d.annotations@[i as int]@);
                assert(av.take(i + 1)[0] == av[0]);
            }
            if i > 0 {
                let comma = ",";
                proof {
                    reveal_strlit(",");
                }
                list.append(comma);
            }
            list.append(quote_str(&d.annotations[i].key).as_str());
            let colon = ":";
            proof {
                reveal_strlit(":");
            }
            list.append(colon);
            list.append(quote_str(&d.annotations[i].value).as_str());
            proof {
                assert(list@ =~= anns_json(av.take(i + 1)));
            }
            i += 1;
        }
        proof {
            assert(av.take(d.annotations@.len() as int) =~= av);
        }
        out.append(list.as_str());
        out.append("}");
    }
    match &d.artifact_type {
        Some(a) => {
            out.append(",\"artifactType\":");
            out.append(quote_str(a).as_str());
        }
        None => {}
    }
    out.append("}");
    proof {
        assert(out@ =~= desc_json(d@));
    }
    out
}

pub fn render_index(ix: &ImageIndex) -> (r: String)
    ensures
        r@ == index_json(ix@),
{
    let mut out = String::from_str("{\"schemaVersion\":");
    out.append(u64_to_dec(ix.schema_version as u64).as_str());
    out.append(",\"mediaType\":");
    out.append(quote_str(&ix.media_type).as_str());
    out.append(",\"manifests\":[");
    let ghost mv = descs_of(ix.manifests@);
    proof {
        assert(mv.take(0) =~= Seq::<DescV>::empty());
    }
    let mut list = String::new();
    let mut i: usize = 0;
    while i < ix.manifests.len()
        invariant
            i <= ix.manifests@.len(),
            mv == descs_of(ix.manifests@),
            list@ == descs_json(mv.take(i as int)),
        decreases ix.manifests@.len() - i,
    {
        proof {
            assert(mv.take(i + 1).drop_last() =~= mv.take(i as int));
            assert(mv.take(i + 1).last() == ix.manifests@[i as int]@);
            assert(mv.take(i + 1)[0] == mv[0]);
        }
        if i > 0 {
            let comma = ",";
            proof {
                reveal_strlit(",");
            }
            list.append(comma);
        }
        list.append(render_desc(&ix.manifests[i]).as_str());
        proof {
            assert(list@ =~= descs_json(mv.take(i + 1)));
        }
        i += 1;
    }
    proof {
        assert(mv.take(ix.manifests@.len() as int) =~= mv);
    }
    out.append(list.as_str());
    out.append("]}");
    proof {
        assert(out@ =~= index_json(ix@));
    }
    out
}

} // verus!
