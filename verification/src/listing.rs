//! Directory listing pages: visible entries, ordered by name, with sizes.

use vstd::prelude::*;
use vstd::utf8::encode_utf8;
use crate::directory::{escape, escape_char, escaped};
use crate::encoding::{lowercase, percent_encode_text, percent_encoded, to_lowercase};
use crate::order::{lemma_text_le_total, lemma_text_le_transitive, text_le, text_le_exec};
use crate::path::{hidden_name, is_hidden_name};
use crate::text::{chars_of, decimal, decimal_text, push_char, push_str, same_text};

verus! {

/// One entry of a directory.
pub struct Entry {
    /// The entry's file name.
    pub name: String,
    /// Whether it is a directory.
    pub is_dir: bool,
    /// Its size in bytes.
    pub size: u64,
}

/// An entry as plain values: name, whether it is a directory, size.
pub open spec fn entry_view(e: Entry) -> (Seq<char>, bool, u64) {
    (e.name@, e.is_dir, e.size)
}

pub open spec fn entry_views(v: Seq<Entry>) -> Seq<(Seq<char>, bool, u64)> {
    v.map_values(|e: Entry| entry_view(e))
}

/// The entries that a listing shows, in their order: those whose names do
/// not start with `.`.
pub open spec fn visible(v: Seq<(Seq<char>, bool, u64)>) -> Seq<(Seq<char>, bool, u64)>
    decreases v.len(),
{
    if v.len() == 0 {
        seq![]
    } else if hidden_name(v.last().0) {
        visible(v.drop_last())
    } else {
        visible(v.drop_last()).push(v.last())
    }
}

proof fn lemma_visible_not_hidden(v: Seq<(Seq<char>, bool, u64)>)
    ensures
        forall|i: int| 0 <= i < visible(v).len() ==> !hidden_name(#[trigger] visible(v)[i].0),
    decreases v.len(),
{
    if v.len() > 0 {
        lemma_visible_not_hidden(v.drop_last());
        let prev = visible(v.drop_last());
        if !hidden_name(v.last().0) {
            assert forall|i: int| 0 <= i < visible(v).len() implies !hidden_name(
                #[trigger] visible(v)[i].0,
            ) by {
                if i < prev.len() {
                    assert(visible(v)[i] == prev[i]);
                }
            }
        }
    }
}

fn copy_entry(e: &Entry) -> (res: Entry)
    ensures
        entry_view(res) == entry_view(*e),
{
    Entry { name: e.name.clone(), is_dir: e.is_dir, size: e.size }
}

/// The entries whose names do not start with `.`, in their order.
pub fn visible_entries(entries: &Vec<Entry>) -> (res: Vec<Entry>)
    ensures
        entry_views(res@) == visible(entry_views(entries@)),
{
    let mut res: Vec<Entry> = Vec::new();
    let mut i: usize = 0;
    while i < entries.len()
        invariant
            i <= entries.len(),
            entry_views(res@) == visible(entry_views(entries@).take(i as int)),
        decreases entries.len() - i,
    {
        let ghost all = entry_views(entries@);
        assert(all.take(i + 1).drop_last() == all.take(i as int));
        assert(all.take(i + 1).last() == entry_view(entries@[i as int]));
        if !is_hidden_name(entries[i].name.as_str()) {
            let ghost before = res@;
            res.push(copy_entry(&entries[i]));
            assert(entry_views(res@) == entry_views(before).push(entry_view(entries@[i as int])));
        }
        i = i + 1;
    }
    assert(entry_views(entries@).take(i as int) == entry_views(entries@));
    res
}

/// Entries in order of their lower-cased names.
pub open spec fn sorted_by_name(v: Seq<(Seq<char>, bool, u64)>) -> bool {
    forall|i: int, j: int|
        0 <= i < j < v.len() ==> text_le(lowercase(#[trigger] v[i].0), lowercase(#[trigger] v[j].0))
}

spec fn keyed_views(v: Seq<(Vec<char>, Entry)>) -> Seq<(Seq<char>, bool, u64)> {
    v.map_values(|e: (Vec<char>, Entry)| entry_view(e.1))
}

/// Orders directory entries by their lower-cased names.
///
/// Entries whose lower-cased names are equal may come out in any order.
pub fn sort_entries(items: &Vec<Entry>) -> (res: Vec<Entry>)
    ensures
        entry_views(res@).to_multiset() == entry_views(items@).to_multiset(),
        sorted_by_name(entry_views(res@)),
{
    broadcast use vstd::seq_lib::group_to_multiset_ensures;

    let mut rem: Vec<(Vec<char>, Entry)> = Vec::new();
    let mut i: usize = 0;
    while i < items.len()
        invariant
            i <= items.len(),
            keyed_views(rem@) == entry_views(items@).take(i as int),
            forall|j: int| 0 <= j < rem.len() ==> (#[trigger] rem@[j]).0@ == lowercase(rem@[j].1.name@),
        decreases items.len() - i,
    {
        let entry = copy_entry(&items[i]);
        let lower = to_lowercase(entry.name.as_str());
        let key = chars_of(lower.as_str());
        let ghost before = rem@;
        rem.push((key, entry));
        assert(keyed_views(rem@) == keyed_views(before).push(entry_views(items@)[i as int]));
        assert(entry_views(items@).take(i + 1) == entry_views(items@).take(i as int).push(
            entry_views(items@)[i as int],
        ));
        i = i + 1;
    }
    assert(entry_views(items@).take(i as int) == entry_views(items@));
    let mut res: Vec<Entry> = Vec::new();
    assert(entry_views(res@).to_multiset().add(keyed_views(rem@).to_multiset())
        =~= keyed_views(rem@).to_multiset());
    while rem.len() > 0
        invariant
            forall|j: int| 0 <= j < rem.len() ==> (#[trigger] rem@[j]).0@ == lowercase(rem@[j].1.name@),
            entry_views(res@).to_multiset().add(keyed_views(rem@).to_multiset())
                == entry_views(items@).to_multiset(),
            sorted_by_name(entry_views(res@)),
            forall|a: int, b: int|
                0 <= a < res.len() && 0 <= b < rem.len() ==> text_le(
                    lowercase(#[trigger] res@[a].name@),
                    lowercase(#[trigger] rem@[b].1.name@),
                ),
        decreases rem.len(),
    {
        let mut best: usize = 0;
        let mut k: usize = 1;
        proof {
            lemma_text_le_total(rem@[0].0@, rem@[0].0@);
        }
        while k < rem.len()
            invariant
                best < rem.len(),
                1 <= k <= rem.len(),
                forall|j: int| 0 <= j < k ==> text_le(rem@[best as int].0@, #[trigger] rem@[j].0@),
            decreases rem.len() - k,
        {
            if !text_le_exec(&rem[best].0, &rem[k].0) {
                proof {
                    lemma_text_le_total(rem@[best as int].0@, rem@[k as int].0@);
                    assert forall|j: int| 0 <= j < k + 1 implies text_le(
                        rem@[k as int].0@,
                        #[trigger] rem@[j].0@,
                    ) by {
                        if j < k {
                            lemma_text_le_transitive(
                                rem@[k as int].0@,
                                rem@[best as int].0@,
                                rem@[j].0@,
                            );
                        } else {
                            lemma_text_le_total(rem@[k as int].0@, rem@[k as int].0@);
                        }
                    }
                }
                best = k;
            } else {
                assert(text_le(rem@[best as int].0@, rem@[k as int].0@));
            }
            k = k + 1;
        }
        proof {
            lemma_text_le_total(rem@[best as int].0@, rem@[best as int].0@);
        }
        let ghost before = rem@;
        let ghost res_before = res@;
        let chosen = rem.remove(best);
        let ghost x = entry_view(chosen.1);
        assert(keyed_views(before)[best as int] == x);
        assert(keyed_views(rem@) == keyed_views(before).remove(best as int));
        res.push(chosen.1);
        assert(entry_views(res@) == entry_views(res_before).push(x));
        proof {
            broadcast use vstd::multiset::group_multiset_axioms;

            entry_views(res_before).to_multiset_ensures();
            keyed_views(before).to_multiset_ensures();
            assert(entry_views(res_before).push(x).to_multiset() == entry_views(res_before).to_multiset().insert(x));
            assert(keyed_views(before).remove(best as int).to_multiset() == keyed_views(before).to_multiset().remove(x));
            assert(keyed_views(before).contains(x));
            assert(entry_views(res@).to_multiset().add(keyed_views(rem@).to_multiset())
                =~= entry_views(res_before).to_multiset().add(keyed_views(before).to_multiset()));
        }
        assert forall|a: int, b: int|
            0 <= a < b < entry_views(res@).len() implies text_le(
            lowercase(#[trigger] entry_views(res@)[a].0),
            lowercase(#[trigger] entry_views(res@)[b].0),
        ) by {
            if b == res_before.len() {
                assert(entry_views(res@)[b].0 == before[best as int].1.name@);
                assert(res@[a] == res_before[a]);
            } else {
                assert(entry_views(res@)[a] == entry_views(res_before)[a]);
                assert(entry_views(res@)[b] == entry_views(res_before)[b]);
            }
        }
        assert forall|a: int, b: int| 0 <= a < res.len() && 0 <= b < rem.len() implies text_le(
            lowercase(#[trigger] res@[a].name@),
            lowercase(#[trigger] rem@[b].1.name@),
        ) by {
            let ob = if b < best { b } else { b + 1 };
            assert(rem@[b] == before[ob]);
            if a == res_before.len() {
                assert(text_le(before[best as int].0@, before[ob].0@));
            } else {
                assert(res@[a] == res_before[a]);
            }
        }
    }
    assert(keyed_views(rem@) =~= Seq::<(Seq<char>, bool, u64)>::empty());
    res
}

} // verus!

verus! {

/// The link prefix for entries: the request path, escaped, ending in `/`.
pub open spec fn link_base(request_path: Seq<char>) -> Seq<char> {
    escaped(
        if request_path.len() > 0 && request_path.last() == '/' {
            request_path
        } else {
            request_path.push('/')
        },
    )
}

/// How a file's size is shown after its link; directories show none.
pub open spec fn size_note(entry: (Seq<char>, bool, u64)) -> Seq<char> {
    if entry.1 {
        seq![]
    } else {
        " <small>"@ + decimal(entry.2 as nat) + " bytes</small>"@
    }
}

/// One list item of a listing: the link, the escaped name (with `/` for a
/// directory) and, for a file, its size in bytes.
pub open spec fn entry_line(base: Seq<char>, entry: (Seq<char>, bool, u64)) -> Seq<char> {
    let suffix = if entry.1 { seq!['/'] } else { seq![] };
    "<li><a href=\""@ + base + percent_encoded(encode_utf8(entry.0)) + suffix + "\">"@ + escaped(
        entry.0,
    ) + suffix + "</a>"@ + size_note(entry) + "</li>"@
}

/// The list items of a listing, in the given order.
pub open spec fn entry_lines(base: Seq<char>, entries: Seq<(Seq<char>, bool, u64)>) -> Seq<char>
    decreases entries.len(),
{
    if entries.len() == 0 {
        seq![]
    } else {
        entry_lines(base, entries.drop_last()) + entry_line(base, entries.last())
    }
}

/// The HTML page that lists `entries`, in that order, under `request_path`.
pub open spec fn listing_page(request_path: Seq<char>, entries: Seq<(Seq<char>, bool, u64)>) -> Seq<
    char,
> {
    "<!doctype html><meta charset=utf-8><title>Index of "@ + escaped(request_path)
        + "</title><h1>Index of "@ + escaped(request_path) + "</h1><ul>"@ + (if request_path
        == "/"@ {
        seq![]
    } else {
        "<li><a href=\"../\">../</a></li>"@
    }) + entry_lines(link_base(request_path), entries) + "</ul>"@
}

fn push_entry_line(html: &mut String, base: &String, entry: &Entry)
    ensures
        final(html)@ == old(html)@ + entry_line(base@, entry_view(*entry)),
{
    let href = percent_encode_text(entry.name.as_str());
    let shown = escape(entry.name.as_str());
    push_str(html, "<li><a href=\"");
    push_str(html, base.as_str());
    push_str(html, href.as_str());
    if entry.is_dir {
        push_char(html, '/');
    }
    push_str(html, "\">");
    push_str(html, shown.as_str());
    if entry.is_dir {
        push_char(html, '/');
    }
    push_str(html, "</a>");
    if !entry.is_dir {
        push_str(html, " <small>");
        let size = decimal_text(entry.size as u128);
        push_str(html, size.as_str());
        push_str(html, " bytes</small>");
    }
    push_str(html, "</li>");
}

/// Renders the listing page for entries already chosen and in display order.
pub fn listing_page_html(request_path: &str, entries: &Vec<Entry>) -> (res: String)
    ensures
        res@ == listing_page(request_path@, entry_views(entries@)),
{
    let cs = chars_of(request_path);
    let mut base_text = String::new();
    push_str(&mut base_text, request_path);
    if !(cs.len() > 0 && cs[cs.len() - 1] == '/') {
        push_char(&mut base_text, '/');
    }
    let base = escape(base_text.as_str());
    let title = escape(request_path);
    let mut html = String::new();
    push_str(&mut html, "<!doctype html><meta charset=utf-8><title>Index of ");
    push_str(&mut html, title.as_str());
    push_str(&mut html, "</title><h1>Index of ");
    push_str(&mut html, title.as_str());
    push_str(&mut html, "</h1><ul>");
    if !same_text(request_path, "/") {
        push_str(&mut html, "<li><a href=\"../\">../</a></li>");
    }
    let ghost head = html@;
    let mut i: usize = 0;
    while i < entries.len()
        invariant
            i <= entries.len(),
            base@ == link_base(request_path@),
            html@ == head + entry_lines(base@, entry_views(entries@).take(i as int)),
        decreases entries.len() - i,
    {
        push_entry_line(&mut html, &base, &entries[i]);
        proof {
            let es = entry_views(entries@);
            assert(es.take(i + 1).drop_last() == es.take(i as int));
            assert(es.take(i + 1).last() == es[i as int]);
        }
        i = i + 1;
    }
    assert(entry_views(entries@).take(i as int) == entry_views(entries@));
    push_str(&mut html, "</ul>");
    html
}

/// Renders the listing of a directory: its entries except hidden ones
/// (names starting with `.`), ordered by lower-cased name, each with a link
/// and, for files, the size.
pub fn listing(request_path: &str, entries: &Vec<Entry>) -> (res: String)
    ensures
        exists|order: Seq<(Seq<char>, bool, u64)>|
            {
                &&& order.to_multiset() == visible(entry_views(entries@)).to_multiset()
                &&& sorted_by_name(order)
                &&& forall|i: int| 0 <= i < order.len() ==> !hidden_name(#[trigger] order[i].0)
                &&& res@ == listing_page(request_path@, order)
            },
{
    let shown = visible_entries(entries);
    let sorted = sort_entries(&shown);
    proof {
        lemma_listing_hides_dotfiles(entry_views(entries@), entry_views(sorted@));
    }
    listing_page_html(request_path, &sorted)
}

/// A hidden file or directory never gets a list item: every entry a listing
/// shows has a name that does not start with `.`.
pub proof fn lemma_listing_hides_dotfiles(entries: Seq<(Seq<char>, bool, u64)>, order: Seq<(Seq<char>, bool, u64)>)
    requires
        order.to_multiset() == visible(entries).to_multiset(),
    ensures
        forall|i: int| 0 <= i < order.len() ==> !hidden_name(#[trigger] order[i].0),
{
    broadcast use vstd::seq_lib::group_to_multiset_ensures;

    lemma_visible_not_hidden(entries);
    assert forall|i: int| 0 <= i < order.len() implies !hidden_name(#[trigger] order[i].0) by {
        assert(order.contains(order[i]));
        assert(order.to_multiset().count(order[i]) > 0);
        assert(visible(entries).to_multiset().count(order[i]) > 0);
        assert(visible(entries).contains(order[i]));
    }
}

/// Entry links start with the escaped request path, followed by `/` only
/// when the path does not already end in one.
pub proof fn lemma_link_base(request_path: Seq<char>)
    ensures
        request_path.len() > 0 && request_path.last() == '/' ==> link_base(request_path)
            == escaped(request_path),
        !(request_path.len() > 0 && request_path.last() == '/') ==> link_base(request_path)
            == escaped(request_path) + seq!['/'],
{
    crate::directory::lemma_escaped_concat(request_path, seq!['/']);
    let slash = seq!['/'];
    assert(slash.drop_last() =~= Seq::<char>::empty());
    assert(slash.last() == '/');
    assert(escaped(slash) == escaped(slash.drop_last()) + escape_char(slash.last()));
    assert(escaped(slash) =~= seq!['/']);
    assert(request_path + seq!['/'] == request_path.push('/'));
}

} // verus!
