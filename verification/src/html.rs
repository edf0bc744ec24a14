use crate::breadcrumb::{breadcrumbs_of, build_breadcrumbs, BreadcrumbSegment, SegView};
use crate::directory::{
    directory_listing, sorted_files, sorted_subs, EntryFile, EntrySubfolder, FileView, RawEntry,
    RawView, SubView,
};
use crate::escape::{escape_seq, sanitize_html_string, url_escape, url_escape_string};
use crate::text::{dec_str, u64_to_string};
use crate::{page_title, spec_page_title};
use vstd::prelude::*;
use vstd::string::StringExecFns;

verus! {

/// One link: the target URL stands as given, the shown name is escaped.
pub open spec fn anchor_html(name: Seq<char>, url: Seq<char>) -> Seq<char> {
    "<a href=\""@ + url + "\">"@ + escape_seq(name) + "</a>"@
}

/// The navigation trail's links, joined by ` / `.
pub open spec fn trail_html(segs: Seq<SegView>) -> Seq<char>
    decreases segs.len(),
{
    if segs.len() == 0 {
        Seq::<char>::empty()
    } else if segs.len() == 1 {
        anchor_html(segs[0].name, segs[0].url)
    } else {
        trail_html(segs.drop_last()) + " / "@ + anchor_html(segs.last().name, segs.last().url)
    }
}

/// A count with its noun: `1` takes the singular, every other count the
/// plural.
pub open spec fn count_phrase(n: nat, singular: Seq<char>, plural: Seq<char>) -> Seq<char> {
    dec_str(n) + " "@ + if n == 1 {
        singular
    } else {
        plural
    }
}

/// The listing table's first row: how many folders and files it shows.
pub open spec fn header_row(nsubs: nat, nfiles: nat) -> Seq<char> {
    "<tr class=\"folder_listing_header\"><td>"@ + count_phrase(nsubs, "folder"@, "folders"@)
        + "<br />"@ + count_phrase(nfiles, "file"@, "files"@) + "</td><td></td></tr>\n"@
}

/// A subfolder's table row: a link, and `--` in the size column.
pub open spec fn subfolder_row(url_base: Seq<char>, e: SubView) -> Seq<char> {
    "<tr><td>"@ + anchor_html(e.name, url_base + url_escape(e.path)) + "</td><td>--</td></tr>\n"@
}

/// A file's table row: a link, and the byte count in the size column.
pub open spec fn file_row(url_base: Seq<char>, e: FileView) -> Seq<char> {
    "<tr><td>"@ + anchor_html(e.name, url_base + url_escape(e.path)) + "</td><td>"@ + dec_str(
        e.size as nat,
    ) + "</td></tr>\n"@
}

/// All subfolder rows, in order.
pub open spec fn sub_rows(url_base: Seq<char>, ss: Seq<SubView>) -> Seq<char>
    decreases ss.len(),
{
    if ss.len() == 0 {
        Seq::<char>::empty()
    } else {
        sub_rows(url_base, ss.drop_last()) + subfolder_row(url_base, ss.last())
    }
}

/// All file rows, in order.
pub open spec fn file_rows(url_base: Seq<char>, fs: Seq<FileView>) -> Seq<char>
    decreases fs.len(),
{
    if fs.len() == 0 {
        Seq::<char>::empty()
    } else {
        file_rows(url_base, fs.drop_last()) + file_row(url_base, fs.last())
    }
}

/// The whole table: counts first, then every subfolder, then every file.
pub open spec fn listing_table(url_base: Seq<char>, ss: Seq<SubView>, fs: Seq<FileView>) -> Seq<
    char,
> {
    header_row(ss.len(), fs.len()) + sub_rows(url_base, ss) + file_rows(url_base, fs)
}

/// The document around a trail and a table.
pub open spec fn page_html(title: Seq<char>, trail: Seq<char>, table: Seq<char>) -> Seq<char> {
    "<!DOCTYPE html>\n<html>\n<head>\n<meta charset=\"utf-8\">\n<title>"@ + title
        + "</title>\n</head>\n<body>\n<div id=\"current_path\">"@ + trail + "</div>\n<table>\n"@
        + table + "</table>\n</body>\n</html>\n"@
}

/// The complete page for one directory: trail and listing both follow from
/// the relative path and the raw children alone.
pub open spec fn browse_page_of(url_base: Seq<char>, rel: Seq<char>, es: Seq<RawView>) -> Seq<
    char,
> {
    page_html(
        spec_page_title(),
        trail_html(breadcrumbs_of(url_base, rel)),
        listing_table(url_base, sorted_subs(rel, es), sorted_files(rel, es)),
    )
}

/// Listing an unchanged directory twice yields byte-identical pages: the
/// rendered page is a function of the route prefix, the relative path and the
/// raw children alone, so two renderings of the same listing agree.
pub proof fn lemma_page_deterministic(
    r1: Seq<char>,
    r2: Seq<char>,
    url_base: Seq<char>,
    rel: Seq<char>,
    es: Seq<RawView>,
)
    requires
        r1 == browse_page_of(url_base, rel, es),
        r2 == browse_page_of(url_base, rel, es),
    ensures
        r1 == r2,
{
}

fn render_anchor(name: &str, url: &str) -> (r: String)
    ensures
        r@ == anchor_html(name@, url@),
{
    let mut r = String::from_str("<a href=\"");
    r.append(url);
    r.append("\">");
    let escaped = sanitize_html_string(name);
    r.append(escaped.as_str());
    r.append("</a>");
    assert(r@ =~= anchor_html(name@, url@));
    r
}

fn render_trail(segs: &Vec<BreadcrumbSegment>) -> (r: String)
    ensures
        r@ == trail_html(segs@.map_values(|b: BreadcrumbSegment| b@)),
{
    let ghost vs = segs@.map_values(|b: BreadcrumbSegment| b@);
    let mut out = String::new();
    let n: usize = segs.len();
    let mut i: usize = 0;
    proof {
        assert(vs.take(0) =~= Seq::<SegView>::empty());
    }
    while i < n
        invariant
            i <= n,
            n == segs@.len(),
            vs =~= segs@.map_values(|b: BreadcrumbSegment| b@),
            out@ =~= trail_html(vs.take(i as int)),
        decreases n - i,
    {
        let ghost pre = out@;
        if i > 0 {
            out.append(" / ");
        }
        let seg: &BreadcrumbSegment = &segs[i];
        let link = render_anchor(seg.name.as_str(), seg.url.as_str());
        out.append(link.as_str());
        proof {
            assert(vs.take(i + 1).drop_last() =~= vs.take(i as int));
            assert(vs.take(i + 1).last() == vs[i as int]);
            if i == 0 {
                assert(out@ =~= anchor_html(vs[0].name, vs[0].url));
            } else {
                assert(out@ =~= trail_html(vs.take(i as int)) + " / "@ + anchor_html(
                    vs[i as int].name,
                    vs[i as int].url,
                ));
            }
            assert(out@ =~= trail_html(vs.take(i + 1)));
        }
        i = i + 1;
    }
    proof {
        assert(vs.take(n as int) =~= vs);
    }
    out
}

fn usize_to_string(n: usize) -> (s: String)
    ensures
        s@ == dec_str(n as nat),
{
    u64_to_string(n as u64)
}

fn render_count_phrase(n: usize, singular: &str, plural: &str) -> (r: String)
    ensures
        r@ == count_phrase(n as nat, singular@, plural@),
{
    let mut r = usize_to_string(n);
    r.append(" ");
    if n == 1 {
        r.append(singular);
    } else {
        r.append(plural);
    }
    assert(r@ =~= count_phrase(n as nat, singular@, plural@));
    r
}

fn render_header_row(nsubs: usize, nfiles: usize) -> (r: String)
    ensures
        r@ == header_row(nsubs as nat, nfiles as nat),
{
    let mut r = String::from_str("<tr class=\"folder_listing_header\"><td>");
    let folders_line = render_count_phrase(nsubs, "folder", "folders");
    r.append(folders_line.as_str());
    r.append("<br />");
    let files_line = render_count_phrase(nfiles, "file", "files");
    r.append(files_line.as_str());
    r.append("</td><td></td></tr>\n");
    assert(r@ =~= header_row(nsubs as nat, nfiles as nat));
    r
}

fn render_sub_rows(url_base: &str, ss: &Vec<EntrySubfolder>) -> (r: String)
    ensures
        r@ == sub_rows(url_base@, ss@.map_values(|e: EntrySubfolder| e@)),
{
    let ghost vs = ss@.map_values(|e: EntrySubfolder| e@);
    let mut out = String::new();
    let n: usize = ss.len();
    let mut i: usize = 0;
    proof {
        assert(vs.take(0) =~= Seq::<SubView>::empty());
    }
    while i < n
        invariant
            i <= n,
            n == ss@.len(),
            vs =~= ss@.map_values(|e: EntrySubfolder| e@),
            out@ =~= sub_rows(url_base@, vs.take(i as int)),
        decreases n - i,
    {
        let e: &EntrySubfolder = &ss[i];
        let mut url = String::from_str(url_base);
        let encoded = url_escape_string(e.given_path.as_str());
        url.append(encoded.as_str());
        let link = render_anchor(e.name.as_str(), url.as_str());
        out.append("<tr><td>");
        out.append(link.as_str());
        out.append("</td><td>--</td></tr>\n");
        proof {
            assert(vs.take(i + 1).drop_last() =~= vs.take(i as int));
            assert(vs.take(i + 1).last() == vs[i as int]);
            assert(out@ =~= sub_rows(url_base@, vs.take(i as int)) + subfolder_row(
                url_base@,
                vs[i as int],
            ));
            assert(out@ =~= sub_rows(url_base@, vs.take(i + 1)));
        }
        i = i + 1;
    }
    proof {
        assert(vs.take(n as int) =~= vs);
    }
    out
}

fn render_file_rows(url_base: &str, fs: &Vec<EntryFile>) -> (r: String)
    ensures
        r@ == file_rows(url_base@, fs@.map_values(|e: EntryFile| e@)),
{
    let ghost vs = fs@.map_values(|e: EntryFile| e@);
    let mut out = String::new();
    let n: usize = fs.len();
    let mut i: usize = 0;
    proof {
        assert(vs.take(0) =~= Seq::<FileView>::empty());
    }
    while i < n
        invariant
            i <= n,
            n == fs@.len(),
            vs =~= fs@.map_values(|e: EntryFile| e@),
            out@ =~= file_rows(url_base@, vs.take(i as int)),
        decreases n - i,
    {
        let e: &EntryFile = &fs[i];
        let mut url = String::from_str(url_base);
        let encoded = url_escape_string(e.file_path.as_str());
        url.append(encoded.as_str());
        let link = render_anchor(e.name.as_str(), url.as_str());
        let size = u64_to_string(e.file_size);
        out.append("<tr><td>");
        out.append(link.as_str());
        out.append("</td><td>");
        out.append(size.as_str());
        out.append("</td></tr>\n");
        proof {
            assert(vs.take(i + 1).drop_last() =~= vs.take(i as int));
            assert(vs.take(i + 1).last() == vs[i as int]);
            assert(out@ =~= file_rows(url_base@, vs.take(i as int)) + file_row(
                url_base@,
                vs[i as int],
            ));
            assert(out@ =~= file_rows(url_base@, vs.take(i + 1)));
        }
        i = i + 1;
    }
    proof {
        assert(vs.take(n as int) =~= vs);
    }
    out
}

/// Renders the full listing page for one directory: the navigation trail for
/// its relative path, then the counts, then every subfolder and every file in
/// sorted order.  `url_base` is the browse route's URL prefix; every link on
/// the page is `url_base` followed by a relative path.
pub fn do_browse_directory(url_base: &str, given_path: &str, entries: &Vec<RawEntry>) -> (r:
    String)
    ensures
        r@ == browse_page_of(url_base@, given_path@, entries@.map_values(|e: RawEntry| e@)),
{
    let (subfolders, files) = directory_listing(given_path, entries);
    let crumbs = build_breadcrumbs(url_base, given_path);
    let trail = render_trail(&crumbs);
    let header = render_header_row(subfolders.len(), files.len());
    let srows = render_sub_rows(url_base, &subfolders);
    let frows = render_file_rows(url_base, &files);
    let mut r = String::from_str(
        "<!DOCTYPE html>\n<html>\n<head>\n<meta charset=\"utf-8\">\n<title>",
    );
    r.append(page_title());
    r.append("</title>\n</head>\n<body>\n<div id=\"current_path\">");
    r.append(trail.as_str());
    r.append("</div>\n<table>\n");
    r.append(header.as_str());
    r.append(srows.as_str());
    r.append(frows.as_str());
    r.append("</table>\n</body>\n</html>\n");
    proof {
        let ghost es = entries@.map_values(|e: RawEntry| e@);
        assert(subfolders@.map_values(|e: EntrySubfolder| e@).len() == sorted_subs(
            given_path@,
            es,
        ).len());
        assert(files@.map_values(|e: EntryFile| e@).len() == sorted_files(given_path@, es).len());
        assert(r@ =~= browse_page_of(url_base@, given_path@, es));
    }
    r
}

} // verus!
