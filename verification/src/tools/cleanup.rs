//! The list of what was removed from the library but is still stored.

use crate::text;
use crate::types::push_text;
use crate::types;
use vstd::prelude::*;

verus! {

/// A library that was removed.
#[derive(Debug)]
pub struct GoneLibrary {
    pub id: i64,
    pub path: String,
    pub deleted_at: String,
}

/// A show that was removed.
#[derive(Debug)]
pub struct GoneShow {
    pub id: String,
    pub title: String,
    pub deleted_at: String,
}

/// A movie or an episode that was removed.
#[derive(Debug)]
pub struct GoneMedia {
    pub id: String,
    pub kind: String,
    pub path: String,
    pub deleted_at: String,
}

pub open spec fn library_line(l: GoneLibrary) -> Seq<char> {
    "  ["@ + l.deleted_at@ + "] id="@ + text::decimal_int(l.id as int) + "  "@ + l.path@
}

pub open spec fn show_line(s: GoneShow) -> Seq<char> {
    "  ["@ + s.deleted_at@ + "] "@ + s.id@ + "  "@ + s.title@
}

pub open spec fn media_line(m: GoneMedia) -> Seq<char> {
    "  ["@ + m.deleted_at@ + "] "@ + m.kind@ + " "@ + m.id@ + "  "@ + m.path@
}

/// A heading with a number, the lines under it and an empty one; nothing where there are
/// no lines.
pub open spec fn section(name: Seq<char>, lines: Seq<Seq<char>>) -> Seq<Seq<char>> {
    if lines.len() == 0 {
        Seq::empty()
    } else {
        seq![name + " ("@ + text::decimal(lines.len()) + "):"@] + lines + seq![""@]
    }
}

/// What is said of the rows that are still stored.
pub open spec fn report_lines(
    libraries: Seq<GoneLibrary>,
    shows: Seq<GoneShow>,
    media: Seq<GoneMedia>,
    apply: bool,
) -> Seq<Seq<char>> {
    let total = libraries.len() + shows.len() + media.len();
    if total == 0 {
        seq!["No soft-deleted rows. Nothing to clean up."@]
    } else {
        seq!["Soft-deleted rows ("@ + text::decimal(total) + " total):"@, ""@] + section(
            "Libraries"@,
            libraries.map_values(|l: GoneLibrary| library_line(l)),
        ) + section("Shows"@, shows.map_values(|s: GoneShow| show_line(s))) + section(
            "Media"@,
            media.map_values(|m: GoneMedia| media_line(m)),
        ) + if apply {
            Seq::empty()
        } else {
            seq![
                "Dry run — re-run with `--apply` to hard-delete these rows."@,
                "Note: cascading FKs will also remove watch_progress, subtitles, thumbnails, etc. for purged media."@,
            ]
        }
    }
}

fn library_text(l: &GoneLibrary) -> (r: String)
    ensures
        r@ == library_line(*l),
{
    let mut out = text::own("  [");
    out.push_str(l.deleted_at.as_str());
    out.push_str("] id=");
    text::push_i64(&mut out, l.id);
    out.push_str("  ");
    out.push_str(l.path.as_str());
    out
}

fn show_text(s: &GoneShow) -> (r: String)
    ensures
        r@ == show_line(*s),
{
    let mut out = text::own("  [");
    out.push_str(s.deleted_at.as_str());
    out.push_str("] ");
    out.push_str(s.id.as_str());
    out.push_str("  ");
    out.push_str(s.title.as_str());
    out
}

fn media_text(m: &GoneMedia) -> (r: String)
    ensures
        r@ == media_line(*m),
{
    let mut out = text::own("  [");
    out.push_str(m.deleted_at.as_str());
    out.push_str("] ");
    out.push_str(m.kind.as_str());
    out.push_str(" ");
    out.push_str(m.id.as_str());
    out.push_str("  ");
    out.push_str(m.path.as_str());
    out
}

fn push_section(out: &mut Vec<String>, name: &str, lines: &Vec<String>)
    ensures
        types::texts(final(out)@) == types::texts(old(out)@) + section(
            name@,
            types::texts(lines@),
        ),
{
    let ghost start = types::texts(out@);
    let ghost all = types::texts(lines@);
    if lines.len() == 0 {
        assert(types::texts(out@) =~= start + section(name@, all));
        return;
    }
    let mut head = text::own(name);
    head.push_str(" (");
    text::push_u64(&mut head, lines.len() as u64);
    head.push_str("):");
    push_text(out, head.as_str());
    let ghost first = seq![name@ + " ("@ + text::decimal(all.len()) + "):"@];
    assert(types::texts(out@) =~= start + first + all.take(0));
    let mut i: usize = 0;
    while i < lines.len()
        invariant
            i <= lines@.len(),
            all == types::texts(lines@),
            types::texts(out@) == start + first + all.take(i as int),
        decreases lines@.len() - i,
    {
        push_text(out, lines[i].as_str());
        proof {
            assert(all.take(i + 1) =~= all.take(i as int).push(lines@[i as int]@));
            assert(types::texts(out@) =~= start + first + all.take(i + 1));
        }
        i += 1;
    }
    assert(all.take(i as int) =~= all);
    push_text(out, "");
    assert(types::texts(out@) =~= start + section(name@, all));
}

fn library_texts(v: &Vec<GoneLibrary>) -> (r: Vec<String>)
    ensures
        types::texts(r@) == v@.map_values(|l: GoneLibrary| library_line(l)),
{
    let ghost want = v@.map_values(|l: GoneLibrary| library_line(l));
    let mut out: Vec<String> = Vec::new();
    let mut i: usize = 0;
    while i < v.len()
        invariant
            i <= v@.len(),
            want == v@.map_values(|l: GoneLibrary| library_line(l)),
            types::texts(out@) == want.take(i as int),
        decreases v@.len() - i,
    {
        let line = library_text(&v[i]);
        push_text(&mut out, line.as_str());
        assert(want.take(i + 1) =~= want.take(i as int).push(library_line(v@[i as int])));
        i += 1;
    }
    assert(want.take(i as int) =~= want);
    out
}

fn show_texts(v: &Vec<GoneShow>) -> (r: Vec<String>)
    ensures
        types::texts(r@) == v@.map_values(|s: GoneShow| show_line(s)),
{
    let ghost want = v@.map_values(|s: GoneShow| show_line(s));
    let mut out: Vec<String> = Vec::new();
    let mut i: usize = 0;
    while i < v.len()
        invariant
            i <= v@.len(),
            want == v@.map_values(|s: GoneShow| show_line(s)),
            types::texts(out@) == want.take(i as int),
        decreases v@.len() - i,
    {
        let line = show_text(&v[i]);
        push_text(&mut out, line.as_str());
        assert(want.take(i + 1) =~= want.take(i as int).push(show_line(v@[i as int])));
        i += 1;
    }
    assert(want.take(i as int) =~= want);
    out
}

fn media_texts(v: &Vec<GoneMedia>) -> (r: Vec<String>)
    ensures
        types::texts(r@) == v@.map_values(|m: GoneMedia| media_line(m)),
{
    let ghost want = v@.map_values(|m: GoneMedia| media_line(m));
    let mut out: Vec<String> = Vec::new();
    let mut i: usize = 0;
    while i < v.len()
        invariant
            i <= v@.len(),
            want == v@.map_values(|m: GoneMedia| media_line(m)),
            types::texts(out@) == want.take(i as int),
        decreases v@.len() - i,
    {
        let line = media_text(&v[i]);
        push_text(&mut out, line.as_str());
        assert(want.take(i + 1) =~= want.take(i as int).push(media_line(v@[i as int])));
        i += 1;
    }
    assert(want.take(i as int) =~= want);
    out
}

/// The lines that are printed. Without `apply` they end in what a real run would do.
pub fn report(
    libraries: &Vec<GoneLibrary>,
    shows: &Vec<GoneShow>,
    media: &Vec<GoneMedia>,
    apply: bool,
) -> (r: Vec<String>)
    requires
        libraries@.len() + shows@.len() + media@.len() <= u64::MAX,
    ensures
        types::texts(r@) == report_lines(libraries@, shows@, media@, apply),
{
    let mut out: Vec<String> = Vec::new();
    let total: u64 = libraries.len() as u64 + shows.len() as u64 + media.len() as u64;
    if total == 0 {
        push_text(&mut out, "No soft-deleted rows. Nothing to clean up.");
        assert(types::texts(out@) =~= report_lines(libraries@, shows@, media@, apply));
        return out;
    }
    let mut head = text::own("Soft-deleted rows (");
    text::push_u64(&mut head, total);
    head.push_str(" total):");
    push_text(&mut out, head.as_str());
    push_text(&mut out, "");
    let ghost first = seq!["Soft-deleted rows ("@ + text::decimal(total as nat) + " total):"@, ""@];
    assert(types::texts(out@) =~= first);
    push_section(&mut out, "Libraries", &library_texts(libraries));
    push_section(&mut out, "Shows", &show_texts(shows));
    push_section(&mut out, "Media", &media_texts(media));
    if !apply {
        push_text(&mut out, "Dry run — re-run with `--apply` to hard-delete these rows.");
        push_text(
            &mut out,
            "Note: cascading FKs will also remove watch_progress, subtitles, thumbnails, etc. for purged media.",
        );
    }
    assert(types::texts(out@) =~= report_lines(libraries@, shows@, media@, apply));
    out
}

/// Whether rows are deleted for good: there are some, and that is asked for.
pub fn purges(total: u64, apply: bool) -> (r: bool)
    ensures
        r == (total > 0 && apply),
{
    total > 0 && apply
}

// ---- laws ----

proof fn section_lists_all(name: Seq<char>, lines: Seq<Seq<char>>, i: int)
    requires
        0 <= i < lines.len(),
    ensures
        section(name, lines)[i + 1] == lines[i],
        section(name, lines).len() == lines.len() + 2,
{
}

/// Every row that is still stored is listed, and a run that deletes nothing says so.
pub proof fn every_row_is_listed(
    libraries: Seq<GoneLibrary>,
    shows: Seq<GoneShow>,
    media: Seq<GoneMedia>,
    apply: bool,
)
    requires
        libraries.len() + shows.len() + media.len() > 0,
    ensures
        ({
            let r = report_lines(libraries, shows, media, apply);
            &&& forall|i: int|
                0 <= i < libraries.len() ==> r.contains(library_line(#[trigger] libraries[i]))
            &&& forall|i: int| 0 <= i < shows.len() ==> r.contains(show_line(#[trigger] shows[i]))
            &&& forall|i: int| 0 <= i < media.len() ==> r.contains(media_line(#[trigger] media[i]))
            &&& r.len() == 2 + libraries.len() + shows.len() + media.len() + (if libraries.len() > 0 {
                2int
            } else {
                0
            }) + (if shows.len() > 0 {
                2int
            } else {
                0
            }) + (if media.len() > 0 {
                2int
            } else {
                0
            }) + (if apply {
                0int
            } else {
                2
            })
        }),
{
    let l = libraries.map_values(|l: GoneLibrary| library_line(l));
    let s = shows.map_values(|s: GoneShow| show_line(s));
    let m = media.map_values(|m: GoneMedia| media_line(m));
    let a = section("Libraries"@, l);
    let b = section("Shows"@, s);
    let c = section("Media"@, m);
    let r = report_lines(libraries, shows, media, apply);
    assert forall|i: int| 0 <= i < libraries.len() implies r.contains(
        library_line(#[trigger] libraries[i]),
    ) by {
        section_lists_all("Libraries"@, l, i);
        assert(r[2 + i + 1] == a[i + 1]);
        assert(l[i] == library_line(libraries[i]));
    }
    assert forall|i: int| 0 <= i < shows.len() implies r.contains(
        show_line(#[trigger] shows[i]),
    ) by {
        section_lists_all("Shows"@, s, i);
        assert(r[2 + a.len() + i + 1] == b[i + 1]);
        assert(s[i] == show_line(shows[i]));
    }
    assert forall|i: int| 0 <= i < media.len() implies r.contains(
        media_line(#[trigger] media[i]),
    ) by {
        section_lists_all("Media"@, m, i);
        assert(r[2 + a.len() + b.len() + i + 1] == c[i + 1]);
        assert(m[i] == media_line(media[i]));
    }
}

} // verus!
