//! Unix path components, as `std::path::Path::components` yields them.

use vstd::prelude::*;
use crate::text::{push_char, chars_of};

verus! {

/// One component of a path.
pub enum Component {
    /// The leading `/` of an absolute path.
    RootDir,
    /// A leading `.` of a relative path.
    CurDir,
    /// A `..` segment.
    ParentDir,
    /// Any other non-empty segment.
    Normal(String),
}

/// The mathematical form of a [`Component`].
pub enum Part {
    Root,
    Current,
    Parent,
    Normal(Seq<char>),
}

impl View for Component {
    type V = Part;

    open spec fn view(&self) -> Part {
        match self {
            Component::RootDir => Part::Root,
            Component::CurDir => Part::Current,
            Component::ParentDir => Part::Parent,
            Component::Normal(name) => Part::Normal(name@),
        }
    }
}

/// The pieces of `s` between `/` separators (empty pieces included).
pub open spec fn segments(s: Seq<char>) -> Seq<Seq<char>>
    decreases s.len(),
{
    if s.len() == 0 {
        seq![seq![]]
    } else {
        let prev = segments(s.drop_last());
        if s.last() == '/' {
            prev.push(seq![])
        } else {
            prev.drop_last().push(prev.last().push(s.last()))
        }
    }
}

/// What a single segment contributes: nothing for `""` and `"."`.
pub open spec fn segment_parts(seg: Seq<char>) -> Seq<Part> {
    if seg.len() == 0 || seg == seq!['.'] {
        seq![]
    } else if seg == seq!['.', '.'] {
        seq![Part::Parent]
    } else {
        seq![Part::Normal(seg)]
    }
}

/// The parts contributed by a list of segments, in order.
pub open spec fn parts_of(segs: Seq<Seq<char>>) -> Seq<Part>
    decreases segs.len(),
{
    if segs.len() == 0 {
        seq![]
    } else {
        parts_of(segs.drop_last()) + segment_parts(segs.last())
    }
}

pub open spec fn has_root(s: Seq<char>) -> bool {
    s.len() > 0 && s[0] == '/'
}

/// A relative path starting with the segment `.` reports it once, first.
pub open spec fn leading_cur_dir(s: Seq<char>) -> bool {
    &&& s.len() > 0
    &&& s[0] == '.'
    &&& (s.len() == 1 || s[1] == '/')
}

/// The components of the path `s`.
pub open spec fn parts(s: Seq<char>) -> Seq<Part> {
    (if has_root(s) { seq![Part::Root] } else { seq![] })
        + (if leading_cur_dir(s) { seq![Part::Current] } else { seq![] })
        + parts_of(segments(s))
}

pub open spec fn views(cs: Seq<Component>) -> Seq<Part> {
    cs.map_values(|c: Component| c@)
}

proof fn lemma_segments_nonempty(s: Seq<char>)
    ensures
        segments(s).len() >= 1,
    decreases s.len(),
{
    if s.len() > 0 {
        lemma_segments_nonempty(s.drop_last());
    }
}

/// Appends what one finished segment contributes.
fn push_segment(out: &mut Vec<Component>, seg: String)
    ensures
        views(final(out)@) == views(old(out)@) + segment_parts(seg@),
{
    let cs = chars_of(seg.as_str());
    if cs.len() == 0 || (cs.len() == 1 && cs[0] == '.') {
        assert(cs.len() == 1 ==> seg@ == seq!['.']);
    } else if cs.len() == 2 && cs[0] == '.' && cs[1] == '.' {
        assert(seg@ == seq!['.', '.']);
        out.push(Component::ParentDir);
    } else {
        assert(seg@ != seq!['.']) by {
            if seg@ == seq!['.'] {
                assert(cs@.len() == 1);
            }
        }
        assert(seg@ != seq!['.', '.']) by {
            if seg@ == seq!['.', '.'] {
                assert(cs@.len() == 2 && cs@[0] == '.' && cs@[1] == '.');
            }
        }
        out.push(Component::Normal(seg));
    }
}

/// Splits a path into its components.
pub fn components(path: &str) -> (res: Vec<Component>)
    ensures
        views(res@) == parts(path@),
{
    let cs = chars_of(path);
    let mut out: Vec<Component> = Vec::new();
    let rooted = cs.len() > 0 && cs[0] == '/';
    if rooted {
        out.push(Component::RootDir);
    }
    if !rooted && cs.len() > 0 && cs[0] == '.' && (cs.len() == 1 || cs[1] == '/') {
        out.push(Component::CurDir);
    }
    let ghost head = views(out@);
    assert(head == (if has_root(path@) { seq![Part::Root] } else { seq![] })
        + (if leading_cur_dir(path@) { seq![Part::Current] } else { seq![] }));
    let mut cur = String::new();
    let mut i: usize = 0;
    proof {
        assert(path@.take(0) =~= Seq::<char>::empty());
    }
    while i < cs.len()
        invariant
            cs@ == path@,
            i <= cs.len(),
            segments(path@.take(i as int)).len() >= 1,
            cur@ == segments(path@.take(i as int)).last(),
            views(out@) == head + parts_of(segments(path@.take(i as int)).drop_last()),
        decreases cs.len() - i,
    {
        let c = cs[i];
        let ghost pre = path@.take(i as int);
        let ghost segs = segments(pre);
        assert(path@.take(i + 1).drop_last() == pre);
        if c == '/' {
            let done = cur;
            cur = String::new();
            push_segment(&mut out, done);
            assert(segs.push(seq![]).drop_last() == segs);
        } else {
            push_char(&mut cur, c);
            let ghost nsegs = segs.drop_last().push(segs.last().push(c));
            assert(nsegs.drop_last() == segs.drop_last());
        }
        i = i + 1;
        proof {
            lemma_segments_nonempty(path@.take(i as int));
        }
    }
    assert(path@.take(i as int) == path@);
    push_segment(&mut out, cur);
    out
}

} // verus!

verus! {

/// The components left after removing `prefix` from the front of `parts`,
/// when `prefix` is a leading run of them.
pub open spec fn strip_prefix_parts(parts: Seq<Part>, prefix: Seq<Part>) -> Option<Seq<Part>> {
    if prefix.len() <= parts.len() && parts.take(prefix.len() as int) == prefix {
        Some(parts.skip(prefix.len() as int))
    } else {
        None
    }
}

/// Whether two components are equal.
pub fn same_component(a: &Component, b: &Component) -> (res: bool)
    ensures
        res == (a@ == b@),
{
    match (a, b) {
        (Component::RootDir, Component::RootDir) => true,
        (Component::CurDir, Component::CurDir) => true,
        (Component::ParentDir, Component::ParentDir) => true,
        (Component::Normal(x), Component::Normal(y)) => crate::text::same_text(x.as_str(), y.as_str()),
        _ => false,
    }
}

/// The index at which the components of `path` continue after those of
/// `prefix`, when `prefix` is a leading run of them.
pub fn strip_prefix(path: &Vec<Component>, prefix: &Vec<Component>) -> (res: Option<usize>)
    ensures
        match res {
            Some(k) => k == prefix.len() && strip_prefix_parts(views(path@), views(prefix@))
                == Some(views(path@).skip(k as int)),
            None => strip_prefix_parts(views(path@), views(prefix@)) is None,
        },
{
    if prefix.len() > path.len() {
        return None;
    }
    let mut i: usize = 0;
    while i < prefix.len()
        invariant
            prefix.len() <= path.len(),
            i <= prefix.len(),
            forall|j: int| 0 <= j < i ==> path@[j]@ == prefix@[j]@,
        decreases prefix.len() - i,
    {
        if !same_component(&path[i], &prefix[i]) {
            assert(views(path@).take(prefix.len() as int)[i as int] != views(prefix@)[i as int]);
            return None;
        }
        i = i + 1;
    }
    assert(views(path@).take(prefix.len() as int) == views(prefix@));
    Some(prefix.len())
}

} // verus!

verus! {

/// A name that starts with `.`: a hidden file or directory.
pub open spec fn hidden_name(name: Seq<char>) -> bool {
    name.len() > 0 && name[0] == '.'
}

/// A component naming a hidden file or directory.
pub open spec fn hidden_part(p: Part) -> bool {
    p matches Part::Normal(name) && hidden_name(name)
}

/// Some component names a hidden file or directory.
pub open spec fn has_hidden_part(ps: Seq<Part>) -> bool {
    exists|i: int| 0 <= i < ps.len() && #[trigger] hidden_part(ps[i])
}

/// Whether a name starts with `.`.
pub fn is_hidden_name(name: &str) -> (res: bool)
    ensures
        res == hidden_name(name@),
{
    let cs = chars_of(name);
    cs.len() > 0 && cs[0] == '.'
}

/// The index of the first component naming a hidden file or directory.
pub fn first_hidden(cs: &Vec<Component>) -> (res: Option<usize>)
    ensures
        match res {
            Some(i) => i < cs.len() && hidden_part(cs@[i as int]@),
            None => !has_hidden_part(views(cs@)),
        },
{
    let mut i: usize = 0;
    while i < cs.len()
        invariant
            i <= cs.len(),
            forall|j: int| 0 <= j < i ==> !hidden_part(#[trigger] views(cs@)[j]),
        decreases cs.len() - i,
    {
        match &cs[i] {
            Component::Normal(name) => {
                if is_hidden_name(name.as_str()) {
                    return Some(i);
                }
            },
            _ => {},
        }
        i = i + 1;
    }
    None
}

/// Whether a path passes through a hidden file or directory: some component
/// other than `.` and `..` starts with `.`. Such paths are never served.
pub fn is_hidden_path(path: &str) -> (res: bool)
    ensures
        res == has_hidden_part(parts(path@)),
{
    let cs = components(path);
    match first_hidden(&cs) {
        Some(i) => {
            assert(hidden_part(views(cs@)[i as int]));
            true
        },
        None => false,
    }
}

} // verus!
