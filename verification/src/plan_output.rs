//! What previews and reports of source transactions share.

use crate::json::{
    json_array, json_object, json_str, jsons, mem, members, no_items, no_members, put, put_item,
    Json, JsonV, MemberV,
};
use crate::source_file::{source_files, SourceFile, SourceFileV};
use crate::splice::file_texts;
use crate::text::{dec, decimal};
use vstd::prelude::*;
use vstd::string::*;

verus! {

/// The form `{:?}` gives a string: quoted, with escapes.
pub uninterp spec fn debug_form(s: Seq<char>) -> Seq<char>;

/// `format!("{:?}", ..)` of a string. Its result is a function of the
/// string; which characters are escaped, and how, is left unsaid.
#[verifier::external_body]
pub(crate) fn debug_text(s: &str) -> (r: String)
    ensures
        r@ == debug_form(s@),
{
    format!("{:?}", s)
}

/// The display name of a file; its number when it is not among the
/// files.
pub open spec fn file_label(files: Seq<SourceFileV>, f: usize) -> Seq<char> {
    if f < files.len() {
        files[f as int].name
    } else {
        dec(f as nat)
    }
}

/// The display name of a file.
pub fn file_name(files: &Vec<SourceFile>, f: usize) -> (r: String)
    ensures
        r@ == file_label(source_files(files@), f),
{
    if f < files.len() {
        files[f].name.clone()
    } else {
        decimal(f as u64)
    }
}

/// The display names of touched files.
pub open spec fn touched_names(news: Seq<(usize, Seq<char>)>, files: Seq<SourceFileV>) -> Seq<
    JsonV,
> {
    Seq::new(news.len(), |i: int| JsonV::Str(file_label(files, news[i].0)))
}

pub(crate) fn names_of(news: &Vec<(usize, String)>, files: &Vec<SourceFile>) -> (r: Json)
    ensures
        r@ == JsonV::Array(touched_names(file_texts(news@), source_files(files@))),
{
    let ghost all = touched_names(file_texts(news@), source_files(files@));
    let mut out = no_items();
    let mut i: usize = 0;
    proof {
        assert(all.take(0) =~= Seq::empty());
    }
    while i < news.len()
        invariant
            i <= news@.len(),
            all == touched_names(file_texts(news@), source_files(files@)),
            jsons(out@) == all.take(i as int),
        decreases news@.len() - i,
    {
        put_item(&mut out, json_str(file_name(files, news[i].0).as_str()));
        i += 1;
        proof {
            assert(all.take(i as int) =~= all.take(i - 1).push(all[i - 1]));
        }
    }
    proof {
        assert(all.take(all.len() as int) =~= all);
    }
    json_array(out)
}

/// The display names of numbered files.
pub open spec fn numbered_names(fs: Seq<usize>, files: Seq<SourceFileV>) -> Seq<JsonV> {
    Seq::new(fs.len(), |i: int| JsonV::Str(file_label(files, fs[i])))
}

pub(crate) fn numbered(fs: &Vec<usize>, files: &Vec<SourceFile>) -> (r: Json)
    ensures
        r@ == JsonV::Array(numbered_names(fs@, source_files(files@))),
{
    let ghost all = numbered_names(fs@, source_files(files@));
    let mut out = no_items();
    let mut i: usize = 0;
    proof {
        assert(all.take(0) =~= Seq::empty());
    }
    while i < fs.len()
        invariant
            i <= fs@.len(),
            all == numbered_names(fs@, source_files(files@)),
            jsons(out@) == all.take(i as int),
        decreases fs@.len() - i,
    {
        put_item(&mut out, json_str(file_name(files, fs[i]).as_str()));
        i += 1;
        proof {
            assert(all.take(i as int) =~= all.take(i - 1).push(all[i - 1]));
        }
    }
    proof {
        assert(all.take(all.len() as int) =~= all);
    }
    json_array(out)
}

/// A new text as JSON, for a client that persists it.
pub open spec fn new_source_json(n: (usize, Seq<char>), files: Seq<SourceFileV>) -> JsonV {
    JsonV::Object(
        seq![
            mem("file"@, JsonV::Str(file_label(files, n.0))),
            mem(
                "path"@,
                if n.0 < files.len() && files[n.0 as int].path is Some {
                    JsonV::Str(crate::paths::path_display(files[n.0 as int].path->0))
                } else {
                    JsonV::Null
                },
            ),
            mem("text"@, JsonV::Str(n.1)),
        ],
    )
}

pub(crate) fn new_sources(news: &Vec<(usize, String)>, files: &Vec<SourceFile>) -> (r: Json)
    ensures
        r@ == JsonV::Array(
            Seq::new(
                news@.len(),
                |i: int| new_source_json(file_texts(news@)[i], source_files(files@)),
            ),
        ),
{
    let ghost all = Seq::new(
        news@.len(),
        |i: int| new_source_json(file_texts(news@)[i], source_files(files@)),
    );
    let mut out = no_items();
    let mut i: usize = 0;
    proof {
        assert(all.take(0) =~= Seq::empty());
    }
    while i < news.len()
        invariant
            i <= news@.len(),
            all == Seq::new(
                news@.len(),
                |j: int| new_source_json(file_texts(news@)[j], source_files(files@)),
            ),
            jsons(out@) == all.take(i as int),
        decreases news@.len() - i,
    {
        let f = news[i].0;
        let path = if f < files.len() {
            match &files[f].path {
                Some(p) => json_str(p.display().as_str()),
                None => Json::Null,
            }
        } else {
            Json::Null
        };
        let mut ms = no_members();
        put(&mut ms, "file", json_str(file_name(files, f).as_str()));
        put(&mut ms, "path", path);
        put(&mut ms, "text", json_str(news[i].1.as_str()));
        proof {
            assert(members(ms@) =~= new_source_json(
                file_texts(news@)[i as int],
                source_files(files@),
            )->Object_0);
        }
        put_item(&mut out, json_object(ms));
        i += 1;
        proof {
            assert(all.take(i as int) =~= all.take(i - 1).push(all[i - 1]));
        }
    }
    proof {
        assert(all.take(all.len() as int) =~= all);
    }
    json_array(out)
}

/// The new texts of a transaction, which a client persists.
pub open spec fn new_sources_member(news: Seq<(usize, Seq<char>)>, files: Seq<SourceFileV>) -> MemberV {
    mem(
        "new_sources"@,
        JsonV::Array(Seq::new(news.len(), |i: int| new_source_json(news[i], files))),
    )
}

} // verus!
