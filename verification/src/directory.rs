use crate::paths::{join_path, join_rel};
use crate::sorting::{
    insert_le, isort_le, lemma_insert_le_at, lemma_isort_le_permutes, lemma_isort_le_sorted,
};
use crate::text::{lemma_lex_le_total, lemma_lex_le_trans, lex_le, str_lex_le};
use vstd::prelude::*;
use vstd::relations::{sorted_by, strongly_connected, transitive};
use vstd::string::StringExecFns;

verus! {

/// One child of a directory, as the filesystem reports it: its bare name,
/// what kind of entry it is, and its size in bytes (0 where the size could
/// not be read).
pub struct RawEntry {
    pub name: String,
    pub is_dir: bool,
    pub is_file: bool,
    pub size: u64,
}

/// The abstract value of a `RawEntry`.
#[verifier::ext_equal]
pub struct RawView {
    pub name: Seq<char>,
    pub is_dir: bool,
    pub is_file: bool,
    pub size: u64,
}

impl View for RawEntry {
    type V = RawView;

    open spec fn view(&self) -> RawView {
        RawView { name: self.name@, is_dir: self.is_dir, is_file: self.is_file, size: self.size }
    }
}

/// A child classified as a subfolder: its path relative to the served root,
/// and its bare name.
pub struct EntrySubfolder {
    pub given_path: String,
    pub name: String,
}

/// The abstract value of an `EntrySubfolder`.
#[verifier::ext_equal]
pub struct SubView {
    pub path: Seq<char>,
    pub name: Seq<char>,
}

impl View for EntrySubfolder {
    type V = SubView;

    open spec fn view(&self) -> SubView {
        SubView { path: self.given_path@, name: self.name@ }
    }
}

/// A child classified as a file: its path relative to the served root, its
/// bare name, and its size in bytes.
pub struct EntryFile {
    pub file_path: String,
    pub name: String,
    pub file_size: u64,
}

/// The abstract value of an `EntryFile`.
#[verifier::ext_equal]
pub struct FileView {
    pub path: Seq<char>,
    pub name: Seq<char>,
    pub size: u64,
}

impl View for EntryFile {
    type V = FileView;

    open spec fn view(&self) -> FileView {
        FileView { path: self.file_path@, name: self.name@, size: self.file_size }
    }
}

/// The subfolders among the raw children, in the order given, each with its
/// path joined under the listed directory's own relative path.  Children
/// without a name are passed over.
pub open spec fn subs_of(given: Seq<char>, es: Seq<RawView>) -> Seq<SubView>
    decreases es.len(),
{
    if es.len() == 0 {
        Seq::<SubView>::empty()
    } else {
        let rest = subs_of(given, es.drop_last());
        let e = es.last();
        if e.name.len() > 0 && e.is_dir {
            rest.push(SubView { path: join_rel(given, e.name), name: e.name })
        } else {
            rest
        }
    }
}

/// The plain files among the raw children, in the order given.  A child that
/// is neither a directory nor a regular file is passed over.
pub open spec fn files_of(given: Seq<char>, es: Seq<RawView>) -> Seq<FileView>
    decreases es.len(),
{
    if es.len() == 0 {
        Seq::<FileView>::empty()
    } else {
        let rest = files_of(given, es.drop_last());
        let e = es.last();
        if e.name.len() > 0 && !e.is_dir && e.is_file {
            rest.push(FileView { path: join_rel(given, e.name), name: e.name, size: e.size })
        } else {
            rest
        }
    }
}

/// Subfolders are ordered by their full relative path.
pub open spec fn sub_le(a: SubView, b: SubView) -> bool {
    lex_le(a.path, b.path)
}

/// Files are ordered by their full relative path.
pub open spec fn file_le(a: FileView, b: FileView) -> bool {
    lex_le(a.path, b.path)
}

/// The listing's subfolders: classified, then sorted by path.
pub open spec fn sorted_subs(given: Seq<char>, es: Seq<RawView>) -> Seq<SubView> {
    isort_le(|a: SubView, b: SubView| sub_le(a, b), subs_of(given, es))
}

/// The listing's files: classified, then sorted by path.
pub open spec fn sorted_files(given: Seq<char>, es: Seq<RawView>) -> Seq<FileView> {
    isort_le(|a: FileView, b: FileView| file_le(a, b), files_of(given, es))
}

/// The subfolder order is transitive and any two subfolders are comparable.
pub proof fn lemma_sub_le_ordering()
    ensures
        transitive(|a: SubView, b: SubView| sub_le(a, b)),
        strongly_connected(|a: SubView, b: SubView| sub_le(a, b)),
{
    let leq = |a: SubView, b: SubView| sub_le(a, b);
    assert forall|x: SubView, y: SubView, z: SubView| #[trigger] leq(x, y) && #[trigger] leq(
        y,
        z,
    ) implies leq(x, z) by {
        lemma_lex_le_trans(x.path, y.path, z.path);
    }
    assert forall|x: SubView, y: SubView| #[trigger] leq(x, y) || #[trigger] leq(y, x) by {
        lemma_lex_le_total(x.path, y.path);
    }
}

/// The file order is transitive and any two files are comparable.
pub proof fn lemma_file_le_ordering()
    ensures
        transitive(|a: FileView, b: FileView| file_le(a, b)),
        strongly_connected(|a: FileView, b: FileView| file_le(a, b)),
{
    let leq = |a: FileView, b: FileView| file_le(a, b);
    assert forall|x: FileView, y: FileView, z: FileView| #[trigger] leq(x, y) && #[trigger] leq(
        y,
        z,
    ) implies leq(x, z) by {
        lemma_lex_le_trans(x.path, y.path, z.path);
    }
    assert forall|x: FileView, y: FileView| #[trigger] leq(x, y) || #[trigger] leq(y, x) by {
        lemma_lex_le_total(x.path, y.path);
    }
}

/// The listing's order is deterministic and ascending: however the
/// filesystem handed the children over, each group comes out sorted by full
/// relative path, and holds exactly the classified children, none gained and
/// none lost.
pub proof fn lemma_listing_sorted(given: Seq<char>, es: Seq<RawView>)
    ensures
        sorted_by(sorted_subs(given, es), |a: SubView, b: SubView| sub_le(a, b)),
        sorted_by(sorted_files(given, es), |a: FileView, b: FileView| file_le(a, b)),
        sorted_subs(given, es).to_multiset() == subs_of(given, es).to_multiset(),
        sorted_files(given, es).to_multiset() == files_of(given, es).to_multiset(),
{
    lemma_sub_le_ordering();
    lemma_file_le_ordering();
    lemma_isort_le_sorted(|a: SubView, b: SubView| sub_le(a, b), subs_of(given, es));
    lemma_isort_le_sorted(|a: FileView, b: FileView| file_le(a, b), files_of(given, es));
    lemma_isort_le_permutes(|a: SubView, b: SubView| sub_le(a, b), subs_of(given, es));
    lemma_isort_le_permutes(|a: FileView, b: FileView| file_le(a, b), files_of(given, es));
}

fn sort_subfolders(v: Vec<EntrySubfolder>) -> (r: Vec<EntrySubfolder>)
    ensures
        r@.map_values(|e: EntrySubfolder| e@) == isort_le(
            |a: SubView, b: SubView| sub_le(a, b),
            v@.map_values(|e: EntrySubfolder| e@),
        ),
{
    let ghost leq = |a: SubView, b: SubView| sub_le(a, b);
    let ghost orig = v@.map_values(|e: EntrySubfolder| e@);
    let mut rest = v;
    let mut out: Vec<EntrySubfolder> = Vec::new();
    proof {
        assert(orig.take(0) =~= Seq::<SubView>::empty());
        assert(rest@.map_values(|e: EntrySubfolder| e@) =~= orig.skip(0));
    }
    while rest.len() > 0
        invariant
            rest@.map_values(|e: EntrySubfolder| e@) =~= orig.skip(
                orig.len() - rest@.len(),
            ),
            rest@.len() <= orig.len(),
            leq == (|a: SubView, b: SubView| sub_le(a, b)),
            out@.map_values(|e: EntrySubfolder| e@) =~= isort_le(
                leq,
                orig.take(orig.len() - rest@.len()),
            ),
        decreases rest@.len(),
    {
        let ghost i = orig.len() - rest@.len();
        let ghost pre_rest = rest@;
        let x = rest.remove(0);
        proof {
            assert(rest@ =~= pre_rest.drop_first());
            assert(rest@.map_values(|e: EntrySubfolder| e@) =~= pre_rest.map_values(
                |e: EntrySubfolder| e@,
            ).drop_first());
            assert(x@ == pre_rest.map_values(|e: EntrySubfolder| e@)[0]);
            assert(x@ == orig[i]);
            assert(rest@.map_values(|e: EntrySubfolder| e@) =~= orig.skip(i + 1));
        }
        let ghost sorted = out@.map_values(|e: EntrySubfolder| e@);
        let mut j: usize = 0;
        while j < out.len() && !str_lex_le(x.given_path.as_str(), out[j].given_path.as_str())
            invariant
                j <= out@.len(),
                sorted == out@.map_values(|e: EntrySubfolder| e@),
                leq == (|a: SubView, b: SubView| sub_le(a, b)),
                forall|k: int| 0 <= k < j ==> !leq(x@, sorted[k]),
            decreases out@.len() - j,
        {
            j = j + 1;
        }
        proof {
            lemma_insert_le_at(leq, sorted, x@, j as int);
        }
        out.insert(j, x);
        proof {
            assert(out@.map_values(|e: EntrySubfolder| e@) =~= sorted.take(j as int) + seq![
                orig[i],
            ] + sorted.skip(j as int));
            assert(orig.take(i + 1).drop_last() =~= orig.take(i));
            assert(orig.take(i + 1).last() == orig[i]);
            assert(out@.map_values(|e: EntrySubfolder| e@) =~= isort_le(leq, orig.take(i + 1)));
        }
    }
    proof {
        assert(orig.take(orig.len() as int) =~= orig);
    }
    out
}

fn sort_files(v: Vec<EntryFile>) -> (r: Vec<EntryFile>)
    ensures
        r@.map_values(|e: EntryFile| e@) == isort_le(
            |a: FileView, b: FileView| file_le(a, b),
            v@.map_values(|e: EntryFile| e@),
        ),
{
    let ghost leq = |a: FileView, b: FileView| file_le(a, b);
    let ghost orig = v@.map_values(|e: EntryFile| e@);
    let mut rest = v;
    let mut out: Vec<EntryFile> = Vec::new();
    proof {
        assert(orig.take(0) =~= Seq::<FileView>::empty());
        assert(rest@.map_values(|e: EntryFile| e@) =~= orig.skip(0));
    }
    while rest.len() > 0
        invariant
            rest@.map_values(|e: EntryFile| e@) =~= orig.skip(orig.len() - rest@.len()),
            rest@.len() <= orig.len(),
            leq == (|a: FileView, b: FileView| file_le(a, b)),
            out@.map_values(|e: EntryFile| e@) =~= isort_le(
                leq,
                orig.take(orig.len() - rest@.len()),
            ),
        decreases rest@.len(),
    {
        let ghost i = orig.len() - rest@.len();
        let ghost pre_rest = rest@;
        let x = rest.remove(0);
        proof {
            assert(rest@ =~= pre_rest.drop_first());
            assert(rest@.map_values(|e: EntryFile| e@) =~= pre_rest.map_values(
                |e: EntryFile| e@,
            ).drop_first());
            assert(x@ == pre_rest.map_values(|e: EntryFile| e@)[0]);
            assert(x@ == orig[i]);
            assert(rest@.map_values(|e: EntryFile| e@) =~= orig.skip(i + 1));
        }
        let ghost sorted = out@.map_values(|e: EntryFile| e@);
        let mut j: usize = 0;
        while j < out.len() && !str_lex_le(x.file_path.as_str(), out[j].file_path.as_str())
            invariant
                j <= out@.len(),
                sorted == out@.map_values(|e: EntryFile| e@),
                leq == (|a: FileView, b: FileView| file_le(a, b)),
                forall|k: int| 0 <= k < j ==> !leq(x@, sorted[k]),
            decreases out@.len() - j,
        {
            j = j + 1;
        }
        proof {
            lemma_insert_le_at(leq, sorted, x@, j as int);
        }
        out.insert(j, x);
        proof {
            assert(out@.map_values(|e: EntryFile| e@) =~= sorted.take(j as int) + seq![
                orig[i],
            ] + sorted.skip(j as int));
            assert(orig.take(i + 1).drop_last() =~= orig.take(i));
            assert(orig.take(i + 1).last() == orig[i]);
            assert(out@.map_values(|e: EntryFile| e@) =~= isort_le(leq, orig.take(i + 1)));
        }
    }
    proof {
        assert(orig.take(orig.len() as int) =~= orig);
    }
    out
}

/// Classifies a directory's raw children as subfolders and files and returns
/// both groups sorted ascending by their full relative path.  Children that
/// are neither directory nor regular file, and children without a name, are
/// left out; nothing here fails, since the directory itself was already read.
pub fn directory_listing(given_path: &str, entries: &Vec<RawEntry>) -> (r: (
    Vec<EntrySubfolder>,
    Vec<EntryFile>,
))
    ensures
        r.0@.map_values(|e: EntrySubfolder| e@) == sorted_subs(
            given_path@,
            entries@.map_values(|e: RawEntry| e@),
        ),
        r.1@.map_values(|e: EntryFile| e@) == sorted_files(
            given_path@,
            entries@.map_values(|e: RawEntry| e@),
        ),
{
    let ghost es = entries@.map_values(|e: RawEntry| e@);
    let mut subfolders: Vec<EntrySubfolder> = Vec::new();
    let mut files: Vec<EntryFile> = Vec::new();
    let n: usize = entries.len();
    let mut i: usize = 0;
    proof {
        assert(es.take(0) =~= Seq::<RawView>::empty());
    }
    while i < n
        invariant
            i <= n,
            n == entries@.len(),
            es =~= entries@.map_values(|e: RawEntry| e@),
            subfolders@.map_values(|e: EntrySubfolder| e@) =~= subs_of(
                given_path@,
                es.take(i as int),
            ),
            files@.map_values(|e: EntryFile| e@) =~= files_of(given_path@, es.take(i as int)),
        decreases n - i,
    {
        proof {
            assert(es.take(i + 1).drop_last() =~= es.take(i as int));
            assert(es.take(i + 1).last() == es[i as int]);
        }
        let entry: &RawEntry = &entries[i];
        if !entry.name.as_str().is_empty() {
            let name: String = entry.name.clone();
            let entry_given_path: String = join_path(given_path, name.as_str());
            if entry.is_dir {
                subfolders.push(EntrySubfolder { given_path: entry_given_path, name });
                assert(subfolders@.map_values(|e: EntrySubfolder| e@) =~= subs_of(
                    given_path@,
                    es.take(i as int),
                ).push(SubView { path: join_rel(given_path@, es[i as int].name), name: es[i as int].name }));
            } else if entry.is_file {
                files.push(EntryFile {
                    file_path: entry_given_path,
                    name,
                    file_size: entry.size,
                });
                assert(files@.map_values(|e: EntryFile| e@) =~= files_of(
                    given_path@,
                    es.take(i as int),
                ).push(
                    FileView {
                        path: join_rel(given_path@, es[i as int].name),
                        name: es[i as int].name,
                        size: es[i as int].size,
                    },
                ));
            }
        }
        i = i + 1;
    }
    proof {
        assert(es.take(n as int) =~= es);
    }
    (sort_subfolders(subfolders), sort_files(files))
}

} // verus!
