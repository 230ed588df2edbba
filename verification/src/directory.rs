//! Directory listings and the request-path checks in front of them.

use vstd::prelude::*;
use crate::encoding::{decoded_text, percent_decode_utf8};
use crate::path::{
    Component, Part, components, first_hidden, has_hidden_part, has_root, hidden_part, parts, views,
};
use crate::text::{chars_of, push_char, push_str};

verus! {

/// What one character becomes in HTML text and attribute values.
pub open spec fn escape_char(c: char) -> Seq<char> {
    if c == '&' {
        seq!['&', 'a', 'm', 'p', ';']
    } else if c == '<' {
        seq!['&', 'l', 't', ';']
    } else if c == '>' {
        seq!['&', 'g', 't', ';']
    } else if c == '"' {
        seq!['&', 'q', 'u', 'o', 't', ';']
    } else {
        seq![c]
    }
}

/// `s` with `&`, `<`, `>` and `"` replaced by their HTML entities.
pub open spec fn escaped(s: Seq<char>) -> Seq<char>
    decreases s.len(),
{
    if s.len() == 0 {
        seq![]
    } else {
        escaped(s.drop_last()) + escape_char(s.last())
    }
}

/// Escapes a name or path for inclusion in the listing's HTML.
pub fn escape(value: &str) -> (res: String)
    ensures
        res@ == escaped(value@),
{
    let chars = chars_of(value);
    let mut res = String::new();
    let mut i: usize = 0;
    while i < chars.len()
        invariant
            chars@ == value@,
            i <= chars.len(),
            res@ == escaped(value@.take(i as int)),
        decreases chars.len() - i,
    {
        let c = chars[i];
        if c == '&' {
            proof { reveal_strlit("&amp;"); }
            push_str(&mut res, "&amp;");
        } else if c == '<' {
            proof { reveal_strlit("&lt;"); }
            push_str(&mut res, "&lt;");
        } else if c == '>' {
            proof { reveal_strlit("&gt;"); }
            push_str(&mut res, "&gt;");
        } else if c == '"' {
            proof { reveal_strlit("&quot;"); }
            push_str(&mut res, "&quot;");
        } else {
            push_char(&mut res, c);
        }
        assert(value@.take(i + 1).drop_last() == value@.take(i as int));
        i = i + 1;
    }
    assert(value@.take(i as int) == value@);
    res
}

} // verus!

verus! {

/// `s` without its leading `/` characters.
pub open spec fn without_leading_slashes(s: Seq<char>) -> Seq<char>
    decreases s.len(),
{
    if s.len() > 0 && s[0] == '/' {
        without_leading_slashes(s.skip(1))
    } else {
        s
    }
}

/// Whether every component is a plain name or the current directory.
pub open spec fn only_names(ps: Seq<Part>) -> bool {
    forall|i: int| 0 <= i < ps.len() ==> (#[trigger] ps[i] is Normal || ps[i] is Current)
}

/// The directory below the served root that a request path names: the
/// percent-decoded path without its leading slashes, unless it is not UTF-8,
/// has a component other than a name or `.`, or names a hidden file or
/// directory.
pub open spec fn spec_relative_path(request_path: Seq<char>) -> Option<Seq<char>> {
    match decoded_text(request_path) {
        None => None,
        Some(d) => {
            let rel = without_leading_slashes(d);
            if only_names(parts(rel)) && !has_hidden_part(parts(rel)) {
                Some(rel)
            } else {
                None
            }
        },
    }
}

fn trim_leading_slashes(s: &str) -> (res: String)
    ensures
        res@ == without_leading_slashes(s@),
{
    let cs = chars_of(s);
    let mut i: usize = 0;
    assert(s@.skip(0) == s@);
    while i < cs.len() && cs[i] == '/'
        invariant
            cs@ == s@,
            i <= cs.len(),
            without_leading_slashes(s@) == without_leading_slashes(s@.skip(i as int)),
        decreases cs.len() - i,
    {
        assert(s@.skip(i as int).skip(1) == s@.skip(i + 1));
        i = i + 1;
    }
    let mut res = String::new();
    let start = i;
    while i < cs.len()
        invariant
            cs@ == s@,
            start <= i <= cs.len(),
            res@ == s@.subrange(start as int, i as int),
        decreases cs.len() - i,
    {
        push_char(&mut res, cs[i]);
        i = i + 1;
    }
    res
}

/// The served directory a request path names, if it may be listed.
///
/// Paths that do not decode to UTF-8, that climb with `..`, or that pass
/// through a hidden (dot) file or directory are refused.
pub fn relative_path(request_path: &str) -> (res: Option<String>)
    ensures
        match res {
            Some(r) => spec_relative_path(request_path@) == Some(r@),
            None => spec_relative_path(request_path@) is None,
        },
{
    let decoded = match percent_decode_utf8(request_path) {
        Some(d) => d,
        None => return None,
    };
    let relative = trim_leading_slashes(decoded.as_str());
    let parts_found = components(relative.as_str());
    let mut i: usize = 0;
    while i < parts_found.len()
        invariant
            i <= parts_found.len(),
            views(parts_found@) == parts(relative@),
            relative@ == without_leading_slashes(decoded@),
            decoded_text(request_path@) == Some(decoded@),
            forall|j: int| 0 <= j < i ==> (#[trigger] views(parts_found@)[j] is Normal
                || views(parts_found@)[j] is Current),
        decreases parts_found.len() - i,
    {
        match &parts_found[i] {
            Component::Normal(_) | Component::CurDir => {},
            _ => {
                assert(!(views(parts_found@)[i as int] is Normal || views(parts_found@)[i as int] is Current));
                return None;
            },
        }
        i = i + 1;
    }
    match first_hidden(&parts_found) {
        Some(k) => {
            assert(hidden_part(views(parts_found@)[k as int]));
            None
        },
        None => Some(relative),
    }
}

/// A path that `relative_path` accepts never leaves the served directory and
/// never shows a hidden one: it is relative, has no `..` component and no
/// component starting with `.`.
pub proof fn lemma_relative_path_stays_inside(request_path: Seq<char>)
    requires
        spec_relative_path(request_path) is Some,
    ensures
        ({
            let rel = spec_relative_path(request_path)->0;
            &&& !has_root(rel)
            &&& forall|i: int| 0 <= i < parts(rel).len() ==> !(#[trigger] parts(rel)[i] is Parent)
            &&& forall|i: int| 0 <= i < parts(rel).len() ==> !hidden_part(#[trigger] parts(rel)[i])
        }),
{
    let d = decoded_text(request_path)->0;
    lemma_no_leading_slash(d);
    let rel = without_leading_slashes(d);
    assert forall|i: int| 0 <= i < parts(rel).len() implies !(#[trigger] parts(rel)[i] is Parent) by {
        assert(parts(rel)[i] is Normal || parts(rel)[i] is Current);
    }
}

proof fn lemma_no_leading_slash(s: Seq<char>)
    ensures
        !has_root(without_leading_slashes(s)),
    decreases s.len(),
{
    if s.len() > 0 && s[0] == '/' {
        lemma_no_leading_slash(s.skip(1));
    }
}

/// Text with the entities `&amp;`, `&lt;`, `&gt;` and `&quot;` read back,
/// left to right, as the characters they stand for.
pub open spec fn unescaped(t: Seq<char>) -> Seq<char>
    decreases t.len(),
{
    if t.len() == 0 {
        seq![]
    } else if t.len() >= 5 && t.take(5) == seq!['&', 'a', 'm', 'p', ';'] {
        seq!['&'] + unescaped(t.skip(5))
    } else if t.len() >= 4 && t.take(4) == seq!['&', 'l', 't', ';'] {
        seq!['<'] + unescaped(t.skip(4))
    } else if t.len() >= 4 && t.take(4) == seq!['&', 'g', 't', ';'] {
        seq!['>'] + unescaped(t.skip(4))
    } else if t.len() >= 6 && t.take(6) == seq!['&', 'q', 'u', 'o', 't', ';'] {
        seq!['"'] + unescaped(t.skip(6))
    } else {
        seq![t[0]] + unescaped(t.skip(1))
    }
}

pub proof fn lemma_escaped_concat(a: Seq<char>, b: Seq<char>)
    ensures
        escaped(a + b) == escaped(a) + escaped(b),
    decreases b.len(),
{
    if b.len() == 0 {
        assert(a + b == a);
    } else {
        lemma_escaped_concat(a, b.drop_last());
        assert((a + b).drop_last() == a + b.drop_last());
        assert((a + b).last() == b.last());
    }
}

proof fn lemma_unescape_char(c: char, rest: Seq<char>)
    ensures
        unescaped(escape_char(c) + rest) == seq![c] + unescaped(rest),
{
    let t = escape_char(c) + rest;
    let n = escape_char(c).len() as int;
    assert(t.take(n) == escape_char(c));
    assert(t.skip(n) == rest);
}

/// Escaping can be undone, so different texts never escape alike.
pub proof fn lemma_escape_reversible(s: Seq<char>)
    ensures
        unescaped(escaped(s)) == s,
    decreases s.len(),
{
    if s.len() > 0 {
        let first = seq![s[0]];
        assert(first + s.skip(1) == s);
        lemma_escaped_concat(first, s.skip(1));
        assert(escaped(first) == escaped(first.drop_last()) + escape_char(s[0]));
        assert(first.drop_last() == Seq::<char>::empty());
        assert(escaped(first) == escape_char(s[0]));
        lemma_unescape_char(s[0], escaped(s.skip(1)));
        lemma_escape_reversible(s.skip(1));
    }
}

/// Escaping is injective: equal escaped texts come from equal texts.
pub proof fn lemma_escape_injective(a: Seq<char>, b: Seq<char>)
    requires
        escaped(a) == escaped(b),
    ensures
        a == b,
{
    lemma_escape_reversible(a);
    lemma_escape_reversible(b);
}

/// Escaped text holds none of the characters that end HTML text or a quoted
/// attribute value.
pub proof fn lemma_escaped_is_inert(s: Seq<char>)
    ensures
        forall|i: int| 0 <= i < escaped(s).len() ==> #[trigger] escaped(s)[i] != '<'
            && escaped(s)[i] != '>' && escaped(s)[i] != '"',
    decreases s.len(),
{
    if s.len() > 0 {
        lemma_escaped_is_inert(s.drop_last());
        let prev = escaped(s.drop_last());
        let tail = escape_char(s.last());
        assert forall|i: int| 0 <= i < escaped(s).len() implies #[trigger] escaped(s)[i] != '<'
            && escaped(s)[i] != '>' && escaped(s)[i] != '"' by {
            if i >= prev.len() {
                assert(escaped(s)[i] == tail[i - prev.len()]);
            } else {
                assert(escaped(s)[i] == prev[i]);
            }
        }
    }
}

} // verus!

verus! {

/// What the fallback for unmatched requests tries.
#[derive(Debug)]
pub enum FallbackAction {
    /// List this directory, relative to the served root.
    List(String),
    /// Serve `index.html`, for single-page applications.
    ServeIndex,
    /// Answer `404 Not Found`.
    NotFound,
}

/// What the fallback tries after `failed` could not be done.
pub open spec fn spec_after_failure(failed: FallbackAction, single: bool) -> FallbackAction {
    match failed {
        FallbackAction::List(_) => if single {
            FallbackAction::ServeIndex
        } else {
            FallbackAction::NotFound
        },
        _ => FallbackAction::NotFound,
    }
}

/// The first thing the fallback tries for `request_path`: listing the
/// directory it names, else (for single-page applications) the index page,
/// else `404`.
pub fn first_fallback(request_path: &str, single: bool) -> (res: FallbackAction)
    ensures
        match spec_relative_path(request_path@) {
            Some(d) => res matches FallbackAction::List(r) && r@ == d,
            None => if single {
                res is ServeIndex
            } else {
                res is NotFound
            },
        },
{
    match relative_path(request_path) {
        Some(d) => FallbackAction::List(d),
        None => if single {
            FallbackAction::ServeIndex
        } else {
            FallbackAction::NotFound
        },
    }
}

/// The next thing the fallback tries once `failed` did not work: the index
/// page after a failed listing (for single-page applications), else `404`.
pub fn after_failure(failed: &FallbackAction, single: bool) -> (res: FallbackAction)
    ensures
        res == spec_after_failure(*failed, single),
{
    match failed {
        FallbackAction::List(_) => if single {
            FallbackAction::ServeIndex
        } else {
            FallbackAction::NotFound
        },
        _ => FallbackAction::NotFound,
    }
}

/// The fallback gives up after at most two failures: whatever failed, the
/// second next step is `404`.
pub proof fn lemma_fallback_ends(failed: FallbackAction, single: bool)
    ensures
        spec_after_failure(spec_after_failure(failed, single), single) is NotFound,
{
}

/// The index page is tried only for single-page applications and only after
/// a listing failed; after the index page, or without the single-page
/// setting, a failure answers `404`.
pub proof fn lemma_index_only_after_listing(failed: FallbackAction, single: bool)
    ensures
        spec_after_failure(failed, single) is ServeIndex <==> (single && failed is List),
        spec_after_failure(failed, single) is NotFound <==> !(single && failed is List),
{
}

} // verus!
