//! How a request of a client is read: by the word for what it asks, and
//! each part from the member that holds it.

use crate::daemon::{
    bound_from, bound_to, daemon_wf, request_of, unbound_from, BindingV, DaemonV, RequestV,
};
use crate::json::{at_key, JsonV};
use vstd::prelude::*;
use vstd::string::*;

verus! {

proof fn lemma_words()
    ensures
        "open"@ != "set"@,
        "open"@ != "check"@,
        "open"@ != "explain"@,
        "open"@ != "rename"@,
        "open"@ != "patch"@,
        "open"@ != "fmt"@,
        "open"@ != "stats"@,
        "open"@ != "close"@,
        "open"@ != "shutdown"@,
        "set"@ != "check"@,
        "set"@ != "explain"@,
        "set"@ != "rename"@,
        "set"@ != "patch"@,
        "set"@ != "fmt"@,
        "set"@ != "stats"@,
        "set"@ != "close"@,
        "set"@ != "shutdown"@,
        "check"@ != "explain"@,
        "check"@ != "rename"@,
        "check"@ != "patch"@,
        "check"@ != "fmt"@,
        "check"@ != "stats"@,
        "check"@ != "close"@,
        "check"@ != "shutdown"@,
        "explain"@ != "rename"@,
        "explain"@ != "patch"@,
        "explain"@ != "fmt"@,
        "explain"@ != "stats"@,
        "explain"@ != "close"@,
        "explain"@ != "shutdown"@,
        "rename"@ != "patch"@,
        "rename"@ != "fmt"@,
        "rename"@ != "stats"@,
        "rename"@ != "close"@,
        "rename"@ != "shutdown"@,
        "patch"@ != "fmt"@,
        "patch"@ != "stats"@,
        "patch"@ != "close"@,
        "patch"@ != "shutdown"@,
        "fmt"@ != "stats"@,
        "fmt"@ != "close"@,
        "fmt"@ != "shutdown"@,
        "stats"@ != "close"@,
        "stats"@ != "shutdown"@,
        "close"@ != "shutdown"@,
{
    reveal_strlit("open");
    reveal_strlit("set");
    reveal_strlit("check");
    reveal_strlit("explain");
    reveal_strlit("rename");
    reveal_strlit("patch");
    reveal_strlit("fmt");
    reveal_strlit("stats");
    reveal_strlit("close");
    reveal_strlit("shutdown");
    assert("open"@.len() != "set"@.len());
    assert("open"@.len() != "check"@.len());
    assert("open"@.len() != "explain"@.len());
    assert("open"@.len() != "rename"@.len());
    assert("open"@.len() != "patch"@.len());
    assert("open"@.len() != "fmt"@.len());
    assert("open"@.len() != "stats"@.len());
    assert("open"@.len() != "close"@.len());
    assert("open"@.len() != "shutdown"@.len());
    assert("set"@.len() != "check"@.len());
    assert("set"@.len() != "explain"@.len());
    assert("set"@.len() != "rename"@.len());
    assert("set"@.len() != "patch"@.len());
    assert("set"@[0] != "fmt"@[0]);
    assert("set"@.len() != "stats"@.len());
    assert("set"@.len() != "close"@.len());
    assert("set"@.len() != "shutdown"@.len());
    assert("check"@.len() != "explain"@.len());
    assert("check"@.len() != "rename"@.len());
    assert("check"@[0] != "patch"@[0]);
    assert("check"@.len() != "fmt"@.len());
    assert("check"@[0] != "stats"@[0]);
    assert("check"@[1] != "close"@[1]);
    assert("check"@.len() != "shutdown"@.len());
    assert("explain"@.len() != "rename"@.len());
    assert("explain"@.len() != "patch"@.len());
    assert("explain"@.len() != "fmt"@.len());
    assert("explain"@.len() != "stats"@.len());
    assert("explain"@.len() != "close"@.len());
    assert("explain"@.len() != "shutdown"@.len());
    assert("rename"@.len() != "patch"@.len());
    assert("rename"@.len() != "fmt"@.len());
    assert("rename"@.len() != "stats"@.len());
    assert("rename"@.len() != "close"@.len());
    assert("rename"@.len() != "shutdown"@.len());
    assert("patch"@.len() != "fmt"@.len());
    assert("patch"@[0] != "stats"@[0]);
    assert("patch"@[0] != "close"@[0]);
    assert("patch"@.len() != "shutdown"@.len());
    assert("fmt"@.len() != "stats"@.len());
    assert("fmt"@.len() != "close"@.len());
    assert("fmt"@.len() != "shutdown"@.len());
    assert("stats"@[0] != "close"@[0]);
    assert("stats"@.len() != "shutdown"@.len());
    assert("close"@.len() != "shutdown"@.len());
}

/// The word by which a client asks.
pub open spec fn asked_by(r: RequestV, word: Seq<char>) -> bool {
    match r {
        RequestV::Open { .. } => word == "open"@ || word == "set"@,
        RequestV::Check { .. } => word == "check"@,
        RequestV::Explain { .. } => word == "explain"@,
        RequestV::Rename { .. } => word == "rename"@,
        RequestV::Patch { .. } => word == "patch"@,
        RequestV::Fmt { .. } => word == "fmt"@,
        RequestV::Stats => word == "stats"@,
        RequestV::Close { .. } => word == "close"@,
        RequestV::Shutdown => word == "shutdown"@,
        RequestV::Unknown(op) => word == op && op != "open"@ && op != "set"@ && op != "check"@ && op
            != "explain"@ && op != "rename"@ && op != "patch"@ && op != "fmt"@ && op != "stats"@
            && op != "close"@ && op != "shutdown"@,
    }
}

/// A member holds a text, or is not there.
pub open spec fn holds_text(req: JsonV, key: Seq<char>, t: Option<Seq<char>>) -> bool {
    at_key(req, key) == match t {
        Some(s) => JsonV::Str(s),
        None => JsonV::Null,
    }
}

/// A member holds a number, or is not there.
pub open spec fn holds_number(req: JsonV, key: Seq<char>, n: Option<u64>) -> bool {
    at_key(req, key) == match n {
        Some(k) => JsonV::Uint(k),
        None => JsonV::Null,
    }
}

/// An object holds the parts of a request.
pub open spec fn holds(req: JsonV, r: RequestV) -> bool {
    match r {
        RequestV::Open { path, text } => {
            &&& holds_text(req, "path"@, Some(path))
            &&& holds_text(req, "text"@, text)
        },
        RequestV::Check { path } => holds_text(req, "path"@, Some(path)),
        RequestV::Explain { path, symbol } => {
            &&& holds_text(req, "path"@, Some(path))
            &&& holds_text(req, "symbol"@, symbol)
        },
        RequestV::Rename { path, symbol, to, apply, revision, at } => {
            &&& holds_text(req, "path"@, Some(path))
            &&& holds_text(req, "symbol"@, Some(symbol))
            &&& holds_text(req, "to"@, Some(to))
            &&& at_key(req, "apply"@) == JsonV::Bool(apply)
            &&& holds_number(req, "revision"@, revision)
            &&& holds_number(req, "at"@, at)
        },
        RequestV::Patch { path, ops, apply, revision } => {
            &&& holds_text(req, "path"@, Some(path))
            &&& at_key(req, "ops"@) == ops
            &&& at_key(req, "apply"@) == JsonV::Bool(apply)
            &&& holds_number(req, "revision"@, revision)
        },
        RequestV::Fmt { path } => holds_text(req, "path"@, Some(path)),
        RequestV::Stats => true,
        RequestV::Close { path } => holds_text(req, "path"@, Some(path)),
        RequestV::Shutdown => true,
        RequestV::Unknown(_) => true,
    }
}

/// A request is read as what it was written for: by its word, and each
/// part from its own member.
pub proof fn law_request_read(req: JsonV, word: Seq<char>, r: RequestV)
    requires
        at_key(req, "op"@) == JsonV::Str(word),
        asked_by(r, word),
        holds(req, r),
    ensures
        request_of(req) == r,
{
    lemma_words();
}

/// A request without `apply` only previews.
pub proof fn law_unasked_apply_is_a_preview(req: JsonV)
    requires
        at_key(req, "apply"@) != JsonV::Bool(true),
    ensures
        request_of(req) matches RequestV::Rename { apply, .. } ==> !apply,
        request_of(req) matches RequestV::Patch { apply, .. } ==> !apply,
{
}

proof fn lemma_kept(bs: Seq<BindingV>, key: Seq<char>, other: Seq<char>, i: int, from: int)
    requires
        0 <= from <= i < bs.len(),
        bs[i].key == key,
        other != key,
    ensures
        bound_from(bs.remove(i), other, from) == bound_from(bs, other, from),
    decreases bs.len() - from,
{
    let rest = bs.remove(i);
    if from < i {
        assert(rest[from] == bs[from]);
        if bs[from].key != other {
            lemma_kept(bs, key, other, i, from + 1);
        }
    } else {
        assert(bound_from(bs, other, i) == bound_from(bs, other, i + 1));
        lemma_shifted(bs, other, i, i + 1);
    }
}

proof fn lemma_shifted(bs: Seq<BindingV>, other: Seq<char>, i: int, from: int)
    requires
        0 <= i < from <= bs.len(),
        i < bs.len(),
    ensures
        bound_from(bs.remove(i), other, from - 1) == bound_from(bs, other, from),
    decreases bs.len() - from,
{
    let rest = bs.remove(i);
    if from < bs.len() {
        assert(rest[from - 1] == bs[from]);
        if bs[from].key != other {
            lemma_shifted(bs, other, i, from + 1);
        }
    }
}

proof fn lemma_unbound(bs: Seq<BindingV>, key: Seq<char>, other: Seq<char>, from: int)
    requires
        0 <= from <= bs.len(),
        other != key,
    ensures
        bound_from(unbound_from(bs, key, from), other, 0) == bound_from(bs, other, 0),
    decreases bs.len() - from,
{
    if from < bs.len() {
        if bs[from].key == key {
            lemma_kept(bs, key, other, from, 0);
        } else {
            lemma_unbound(bs, key, other, from + 1);
        }
    }
}

/// Closing one path leaves what another is bound to alone.
pub proof fn law_close_keeps_others(d: DaemonV, key: Seq<char>, other: Seq<char>)
    requires
        daemon_wf(d),
        other != key,
    ensures
        bound_to(DaemonV { files: unbound_from(d.files, key, 0), ..d }, other) == bound_to(d, other),
{
    lemma_unbound(d.files, key, other, 0);
}

} // verus!
