use crate::escape::{url_escape, url_escape_string};
use crate::paths::{join_path, join_rel, split_path, split_slash};
use vstd::prelude::*;
use vstd::string::{StrSliceExecFns, StringExecFns};

verus! {

/// A piece of a path that names a real step downward: not empty, not the
/// current directory, not the parent.
pub open spec fn is_normal_piece(p: Seq<char>) -> bool {
    p.len() > 0 && p != "."@ && p != ".."@
}

/// The normal pieces of a relative path, in order.
pub open spec fn normal_components(s: Seq<char>) -> Seq<Seq<char>> {
    split_slash(s).filter(|p: Seq<char>| is_normal_piece(p))
}

/// Pieces joined back into one path with `'/'` between them.
pub open spec fn joined(parts: Seq<Seq<char>>) -> Seq<char>
    decreases parts.len(),
{
    if parts.len() == 0 {
        Seq::<char>::empty()
    } else {
        join_rel(joined(parts.drop_last()), parts.last())
    }
}

/// One step of the navigation trail: the text shown, and the browse URL of
/// the folder it names.
pub struct BreadcrumbSegment {
    pub name: String,
    pub url: String,
}

/// The abstract value of a `BreadcrumbSegment`.
#[verifier::ext_equal]
pub struct SegView {
    pub name: Seq<char>,
    pub url: Seq<char>,
}

impl View for BreadcrumbSegment {
    type V = SegView;

    open spec fn view(&self) -> SegView {
        SegView { name: self.name@, url: self.url@ }
    }
}

/// The whole trail for a relative path: first the served root, shown as `/`,
/// then one segment per normal piece, each linking to the path formed by the
/// pieces up to and including it.
pub open spec fn breadcrumbs_of(url_base: Seq<char>, rel: Seq<char>) -> Seq<SegView> {
    let cs = normal_components(rel);
    seq![SegView { name: "/"@, url: url_base }] + Seq::new(
        cs.len(),
        |i: int| SegView { name: cs[i], url: url_base + url_escape(joined(cs.take(i + 1))) },
    )
}

/// Builds the navigation trail for a relative path, root first, leaf last.
pub fn build_breadcrumbs(url_base: &str, rel: &str) -> (r: Vec<BreadcrumbSegment>)
    ensures
        r@.map_values(|b: BreadcrumbSegment| b@) == breadcrumbs_of(url_base@, rel@),
{
    let parts = split_path(rel);
    let dot: String = String::from_str(".");
    let dotdot: String = String::from_str("..");
    let ghost ps = parts@.map_values(|t: String| t@);
    let ghost pred = |p: Seq<char>| is_normal_piece(p);
    let mut comps: Vec<String> = Vec::new();
    let n: usize = parts.len();
    let mut j: usize = 0;
    proof {
        reveal(Seq::filter);
        assert(ps.take(0) =~= Seq::<Seq<char>>::empty());
    }
    while j < n
        invariant
            j <= n,
            n == parts@.len(),
            ps =~= parts@.map_values(|t: String| t@),
            dot@ == "."@,
            dotdot@ == ".."@,
            pred == (|p: Seq<char>| is_normal_piece(p)),
            comps@.map_values(|t: String| t@) =~= ps.take(j as int).filter(pred),
        decreases n - j,
    {
        let p: &String = &parts[j];
        proof {
            reveal(Seq::filter);
            assert(ps.take(j + 1).drop_last() =~= ps.take(j as int));
            assert(ps.take(j + 1).last() == ps[j as int]);
        }
        if p.as_str().unicode_len() > 0 && !(*p == dot) && !(*p == dotdot) {
            comps.push(p.clone());
            assert(comps@.map_values(|t: String| t@) =~= ps.take(j as int).filter(pred).push(
                ps[j as int],
            ));
        }
        j = j + 1;
    }
    proof {
        assert(ps.take(n as int) =~= ps);
    }
    let ghost cs = normal_components(rel@);
    assert(comps@.map_values(|t: String| t@) == cs);
    let mut out: Vec<BreadcrumbSegment> = Vec::new();
    out.push(BreadcrumbSegment { name: String::from_str("/"), url: String::from_str(url_base) });
    let mut prefix: String = String::new();
    let m: usize = comps.len();
    let mut k: usize = 0;
    proof {
        assert(out@.map_values(|b: BreadcrumbSegment| b@) =~= breadcrumbs_of(
            url_base@,
            rel@,
        ).take(1));
    }
    while k < m
        invariant
            k <= m,
            m == comps@.len(),
            cs == normal_components(rel@),
            comps@.map_values(|t: String| t@) == cs,
            prefix@ =~= joined(cs.take(k as int)),
            out@.map_values(|b: BreadcrumbSegment| b@) =~= breadcrumbs_of(url_base@, rel@).take(
                k + 1,
            ),
        decreases m - k,
    {
        let name: String = comps[k].clone();
        prefix = join_path(prefix.as_str(), name.as_str());
        let mut url: String = String::from_str(url_base);
        let encoded = url_escape_string(prefix.as_str());
        url.append(encoded.as_str());
        proof {
            assert(cs.take(k + 1).drop_last() =~= cs.take(k as int));
            assert(cs.take(k + 1).last() == cs[k as int]);
            assert(prefix@ =~= joined(cs.take(k + 1)));
        }
        out.push(BreadcrumbSegment { name, url });
        proof {
            let bs = breadcrumbs_of(url_base@, rel@);
            assert(bs[k + 1] =~= SegView {
                name: cs[k as int],
                url: url_base@ + url_escape(joined(cs.take(k + 1))),
            });
            assert(out@.map_values(|b: BreadcrumbSegment| b@) =~= bs.take(k + 1).push(bs[k + 1]));
            assert(bs.take(k + 1).push(bs[k + 1]) =~= bs.take(k + 2));
        }
        k = k + 1;
    }
    proof {
        assert(breadcrumbs_of(url_base@, rel@).take(m + 1) =~= breadcrumbs_of(url_base@, rel@));
    }
    out
}

} // verus!
