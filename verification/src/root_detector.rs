//! Finding the real root of a mod inside extracted content: the folder of
//! its only `mod.json`, or else the content with its packaging wrapper
//! folders removed.
//!
//! The content is described by a listing of every entry below the staged
//! root, as a directory walk that does not follow links reports it.
use vstd::prelude::*;
use crate::conflicts::text_views;
use crate::error::{msg, AppError};
use crate::ids::{decimal, decimal_chars};
use crate::ini_facts::{after_last_dot, last_dot_end, lemma_after_last_dot, name_extension};
use crate::order::views;
use crate::text::{chars_eq, chars_eq_ic, concat, concat_str, eq_ic, from_chars, slice_subrange, slice_to_vec, to_chars};

verus! {

/// How deep below the staged root a `mod.json` is looked for.
pub const MAX_MANIFEST_SEARCH_DEPTH: usize = 5;

/// How many wrapper folders may be removed.
pub const MAX_WRAPPER_DEPTH: usize = 4;

/// How deep below a top-level folder an `.ini` file is looked for.
pub const MAX_INI_BRANCH_DEPTH: usize = 3;

/// The kind of an entry, as reported without following links.
#[derive(Clone, Copy, Debug, PartialEq, Eq, Structural)]
pub enum StagedEntryKind {
    File,
    Directory,
    Other,
}

/// One entry below the staged root.
pub struct StagedEntry {
    /// Its path relative to the staged root, one name per level.
    pub components: Vec<String>,
    pub kind: StagedEntryKind,
    /// Whether it is a link or a reparse point.
    pub link: bool,
}

pub struct StagedEntryView {
    pub components: Seq<Seq<char>>,
    pub kind: StagedEntryKind,
    pub link: bool,
}

impl View for StagedEntry {
    type V = StagedEntryView;

    open spec fn view(&self) -> StagedEntryView {
        StagedEntryView { components: text_views(self.components@), kind: self.kind, link: self.link }
    }
}

/// The extracted content of a mod: what is known of its root folder and
/// every entry below it.
pub struct StagedTree {
    pub root_absolute: bool,
    pub root_link: bool,
    pub root_directory: bool,
    pub entries: Vec<StagedEntry>,
}

impl StagedTree {
    pub open spec fn entry_views(&self) -> Seq<StagedEntryView> {
        self.entries@.map_values(|e: StagedEntry| e@)
    }
}

/// The chosen mod root, relative to the staged root, and what the user is
/// told about how it was found.
pub struct DetectedModRoot {
    pub path: Vec<String>,
    pub warnings: Vec<String>,
}

// ---------------------------------------------------------------------------
// The model
// ---------------------------------------------------------------------------
/// `c` lies strictly below `p`.
pub open spec fn below(c: Seq<Seq<char>>, p: Seq<Seq<char>>) -> bool {
    c.len() > p.len() && c.take(p.len() as int) == p
}

/// `c` is a direct child of `p`.
pub open spec fn child_of(c: Seq<Seq<char>>, p: Seq<Seq<char>>) -> bool {
    c.len() == p.len() + 1 && c.take(p.len() as int) == p
}

/// Names that archive tools add and that never belong to a mod.
pub open spec fn junk_name(n: Seq<char>) -> bool {
    eq_ic(n, "__MACOSX"@) || eq_ic(n, ".DS_Store"@) || eq_ic(n, "Thumbs.db"@) || eq_ic(n, "desktop.ini"@)
}

/// An entry named, ignoring ASCII case, `__MACOSX`, `.DS_Store`,
/// `Thumbs.db` or `desktop.ini` placed directly in `p` is packaging junk:
/// adding it never changes whether `p` only wraps one folder, nor which
/// folder that is.
pub proof fn lemma_packaging_junk_ignored(es: Seq<StagedEntryView>, p: Seq<Seq<char>>, e: StagedEntryView)
    requires
        child_of(e.components, p),
        eq_ic(e.components.last(), "__MACOSX"@) || eq_ic(e.components.last(), ".DS_Store"@) || eq_ic(
            e.components.last(),
            "Thumbs.db"@,
        ) || eq_ic(e.components.last(), "desktop.ini"@),
    ensures
        single_wrapper(es.push(e), p) == single_wrapper(es, p),
{
    let t = es.push(e);
    assert(!meaningful_child(e, p));
    assert(t[es.len() as int] == e);
    assert forall|i: int| 0 <= i < es.len() implies #[trigger] t[i] == es[i] by {}
    assert forall|i: int| #[trigger] child_dir(t, i, p) == child_dir(es, i, p) by {
        if 0 <= i < es.len() {
            assert(t[i] == es[i]);
        }
    }
    let a_t = forall|i: int| 0 <= i < t.len() && meaningful_child(#[trigger] t[i], p) ==> t[i].kind != StagedEntryKind::File;
    let a_e = forall|i: int| 0 <= i < es.len() && meaningful_child(#[trigger] es[i], p) ==> es[i].kind != StagedEntryKind::File;
    assert(a_t == a_e) by {
        if a_e {
            assert forall|i: int| 0 <= i < t.len() && meaningful_child(#[trigger] t[i], p) implies t[i].kind
                != StagedEntryKind::File by {
                if i < es.len() {
                    assert(t[i] == es[i]);
                }
            }
        }
        if a_t {
            assert forall|i: int| 0 <= i < es.len() && meaningful_child(#[trigger] es[i], p) implies es[i].kind
                != StagedEntryKind::File by {
                assert(t[i] == es[i]);
            }
        }
    }
    let b_t = exists|i: int| #[trigger] child_dir(t, i, p);
    let b_e = exists|i: int| #[trigger] child_dir(es, i, p);
    assert(b_t == b_e) by {
        if b_t {
            let i = choose|i: int| #[trigger] child_dir(t, i, p);
            assert(child_dir(es, i, p));
        }
        if b_e {
            let i = choose|i: int| #[trigger] child_dir(es, i, p);
            assert(child_dir(t, i, p));
        }
    }
    let c_t = forall|i: int, j: int|
        #[trigger] child_dir(t, i, p) && #[trigger] child_dir(t, j, p) ==> t[i].components == t[j].components;
    let c_e = forall|i: int, j: int|
        #[trigger] child_dir(es, i, p) && #[trigger] child_dir(es, j, p) ==> es[i].components == es[j].components;
    assert(c_t == c_e) by {
        if c_e {
            assert forall|i: int, j: int| #[trigger] child_dir(t, i, p) && #[trigger] child_dir(t, j, p) implies t[i].components
                == t[j].components by {
                assert(child_dir(es, i, p) && child_dir(es, j, p));
                assert(t[i] == es[i] && t[j] == es[j]);
            }
        }
        if c_t {
            assert forall|i: int, j: int| #[trigger] child_dir(es, i, p) && #[trigger] child_dir(es, j, p) implies es[i].components
                == es[j].components by {
                assert(child_dir(t, i, p) && child_dir(t, j, p));
                assert(t[i] == es[i] && t[j] == es[j]);
            }
        }
    }
    if a_e && b_e && c_e {
        let i = choose|i: int| #[trigger] child_dir(t, i, p);
        let j = choose|j: int| #[trigger] child_dir(es, j, p);
        assert(child_dir(t, i, p));
        assert(child_dir(es, j, p));
        assert(child_dir(es, i, p));
        assert(t[i] == es[i]);
        assert(es[i].components == es[j].components);
        assert(single_wrapper(t, p) == Some(t[i].components));
        assert(single_wrapper(es, p) == Some(es[j].components));
    } else {
        assert(single_wrapper(t, p) is None);
        assert(single_wrapper(es, p) is None);
    }
}

/// Any other file directly in `p` belongs to the mod: with it `p` is never
/// a mere wrapper.
pub proof fn lemma_real_file_stops_unwrapping(es: Seq<StagedEntryView>, p: Seq<Seq<char>>, e: StagedEntryView)
    requires
        child_of(e.components, p),
        e.kind == StagedEntryKind::File,
        !eq_ic(e.components.last(), "__MACOSX"@),
        !eq_ic(e.components.last(), ".DS_Store"@),
        !eq_ic(e.components.last(), "Thumbs.db"@),
        !eq_ic(e.components.last(), "desktop.ini"@),
    ensures
        single_wrapper(es.push(e), p) is None,
{
    let t = es.push(e);
    assert(t[es.len() as int] == e);
    assert(meaningful_child(t[es.len() as int], p));
}

pub open spec fn ini_name(n: Seq<char>) -> bool {
    match name_extension(n) {
        Some(e) => eq_ic(e, seq!['i', 'n', 'i']),
        None => false,
    }
}

/// A link or reparse point within the depth searched for `mod.json`.
pub open spec fn shallow_link(es: Seq<StagedEntryView>) -> bool {
    exists|i: int| 0 <= i < es.len() && #[trigger] es[i].link && es[i].components.len() <= MAX_MANIFEST_SEARCH_DEPTH
}

pub open spec fn is_manifest(e: StagedEntryView) -> bool {
    &&& e.kind == StagedEntryKind::File
    &&& 1 <= e.components.len() <= MAX_MANIFEST_SEARCH_DEPTH
    &&& eq_ic(e.components.last(), "mod.json"@)
}

/// `p` is the folder of some `mod.json`.
pub open spec fn manifest_parent(es: Seq<StagedEntryView>, p: Seq<Seq<char>>) -> bool {
    exists|i: int| 0 <= i < es.len() && is_manifest(#[trigger] es[i]) && es[i].components.drop_last() == p
}

pub open spec fn multiple_manifests(es: Seq<StagedEntryView>) -> bool {
    exists|a: Seq<Seq<char>>, b: Seq<Seq<char>>| a != b && manifest_parent(es, a) && manifest_parent(es, b)
}

/// Some regular file lies below `p`.
pub open spec fn contains_file(es: Seq<StagedEntryView>, p: Seq<Seq<char>>) -> bool {
    exists|i: int| 0 <= i < es.len() && #[trigger] es[i].kind == StagedEntryKind::File && below(es[i].components, p)
}

pub open spec fn meaningful_child(e: StagedEntryView, p: Seq<Seq<char>>) -> bool {
    child_of(e.components, p) && !junk_name(e.components.last())
}

pub open spec fn child_dir(es: Seq<StagedEntryView>, i: int, p: Seq<Seq<char>>) -> bool {
    0 <= i < es.len() && meaningful_child(es[i], p) && es[i].kind == StagedEntryKind::Directory
}

/// The only thing in `p`, when that is one folder and no file.
pub open spec fn single_wrapper(es: Seq<StagedEntryView>, p: Seq<Seq<char>>) -> Option<Seq<Seq<char>>> {
    if (forall|i: int| 0 <= i < es.len() && meaningful_child(#[trigger] es[i], p) ==> es[i].kind != StagedEntryKind::File)
        && (exists|i: int| #[trigger] child_dir(es, i, p)) && (forall|i: int, j: int|
        #[trigger] child_dir(es, i, p) && #[trigger] child_dir(es, j, p) ==> es[i].components == es[j].components) {
        Some(es[choose|i: int| #[trigger] child_dir(es, i, p)].components)
    } else {
        None
    }
}

/// Removes at most `k` wrapper folders from `p`: the folder reached and how
/// many were removed.
pub open spec fn unwrap_wrappers(es: Seq<StagedEntryView>, p: Seq<Seq<char>>, k: nat) -> (Seq<Seq<char>>, nat)
    decreases k,
{
    if k == 0 {
        (p, 0)
    } else {
        match single_wrapper(es, p) {
            Some(d) => {
                let r = unwrap_wrappers(es, d, (k - 1) as nat);
                (r.0, r.1 + 1)
            },
            None => (p, 0),
        }
    }
}

/// `d` is a top-level folder with an `.ini` file at most three levels into it.
pub open spec fn ini_branch(es: Seq<StagedEntryView>, d: Seq<Seq<char>>) -> bool {
    &&& exists|i: int| #[trigger] child_dir(es, i, Seq::empty()) && es[i].components == d
    &&& exists|j: int|
        0 <= j < es.len() && #[trigger] es[j].kind == StagedEntryKind::File && below(es[j].components, d)
            && es[j].components.len() <= d.len() + MAX_INI_BRANCH_DEPTH && ini_name(es[j].components.last())
}

pub open spec fn multiple_ini_branches(es: Seq<StagedEntryView>) -> bool {
    exists|a: Seq<Seq<char>>, b: Seq<Seq<char>>| a != b && ini_branch(es, a) && ini_branch(es, b)
}

pub open spec fn located_by_manifest_warning() -> Seq<char> {
    "已根据唯一的 mod.json 自动定位真正的模组根目录。"@
}

pub open spec fn unwrapped_warning(n: nat) -> Seq<char> {
    "已自动移除 "@ + decimal(n) + " 层仅用于打包的外层目录。"@
}

pub open spec fn no_manifest_warning() -> Seq<char> {
    "未找到作者 mod.json；AEMM 将把当前包根目录视为一个模组并生成内部元数据。"@
}

// ---------------------------------------------------------------------------
// Executable pieces
// ---------------------------------------------------------------------------
fn component_chars(c: &Vec<String>) -> (r: Vec<Vec<char>>)
    ensures
        views(r@) == text_views(c@),
{
    let mut r: Vec<Vec<char>> = Vec::new();
    let mut i: usize = 0;
    while i < c.len()
        invariant
            i <= c@.len(),
            r@.len() == i,
            views(r@) == text_views(c@).take(i as int),
        decreases c@.len() - i,
    {
        let v = to_chars(c[i].as_str());
        r.push(v);
        proof {
            assert(r@[i as int]@ == text_views(c@)[i as int]);
            assert(views(r@) =~= text_views(c@).take(i + 1));
        }
        i = i + 1;
    }
    proof {
        assert(text_views(c@).take(c@.len() as int) =~= text_views(c@));
    }
    r
}

fn component_strings(c: &Vec<Vec<char>>) -> (r: Vec<String>)
    ensures
        text_views(r@) == views(c@),
{
    let mut r: Vec<String> = Vec::new();
    let mut i: usize = 0;
    while i < c.len()
        invariant
            i <= c@.len(),
            r@.len() == i,
            text_views(r@) == views(c@).take(i as int),
        decreases c@.len() - i,
    {
        let v = from_chars(c[i].as_slice());
        r.push(v);
        proof {
            assert(r@[i as int]@ == views(c@)[i as int]);
            assert(text_views(r@) =~= views(c@).take(i + 1));
        }
        i = i + 1;
    }
    proof {
        assert(views(c@).take(c@.len() as int) =~= views(c@));
    }
    r
}

/// The first `n` components of `c` equal `p`.
fn prefix_matches(c: &Vec<Vec<char>>, p: &Vec<Vec<char>>) -> (b: bool)
    requires
        p@.len() <= c@.len(),
    ensures
        b == (views(c@).take(p@.len() as int) == views(p@)),
{
    let mut i: usize = 0;
    while i < p.len()
        invariant
            i <= p@.len(),
            p@.len() <= c@.len(),
            forall|k: int| 0 <= k < i ==> c@[k]@ == p@[k]@,
        decreases p@.len() - i,
    {
        if !chars_eq(c[i].as_slice(), p[i].as_slice()) {
            proof {
                assert(views(c@).take(p@.len() as int)[i as int] != views(p@)[i as int]);
            }
            return false;
        }
        i = i + 1;
    }
    proof {
        assert(views(c@).take(p@.len() as int) =~= views(p@));
    }
    true
}

fn same_components(a: &Vec<Vec<char>>, b: &Vec<Vec<char>>) -> (r: bool)
    ensures
        r == (views(a@) == views(b@)),
{
    if a.len() != b.len() {
        proof {
            assert(views(a@).len() != views(b@).len());
        }
        return false;
    }
    let r = prefix_matches(a, b);
    proof {
        assert(views(a@).take(b@.len() as int) =~= views(a@));
    }
    r
}

fn is_below(c: &Vec<Vec<char>>, p: &Vec<Vec<char>>) -> (b: bool)
    ensures
        b == below(views(c@), views(p@)),
{
    if c.len() <= p.len() {
        return false;
    }
    prefix_matches(c, p)
}

fn is_child(c: &Vec<Vec<char>>, p: &Vec<Vec<char>>) -> (b: bool)
    ensures
        b == child_of(views(c@), views(p@)),
{
    if c.len() == 0 || c.len() - 1 != p.len() {
        return false;
    }
    prefix_matches(c, p)
}

fn is_junk(n: &[char]) -> (b: bool)
    ensures
        b == junk_name(n@),
{
    chars_eq_ic(n, to_chars("__MACOSX").as_slice()) || chars_eq_ic(n, to_chars(".DS_Store").as_slice())
        || chars_eq_ic(n, to_chars("Thumbs.db").as_slice()) || chars_eq_ic(n, to_chars("desktop.ini").as_slice())
}

fn is_ini_name(n: &[char]) -> (b: bool)
    ensures
        b == ini_name(n@),
{
    let k = last_dot_end(n);
    proof {
        lemma_after_last_dot(n@);
    }
    if k <= 1 {
        return false;
    }
    let ext = slice_subrange(n, k, n.len());
    proof {
        assert(ext@ =~= n@.skip(k as int));
    }
    let mut ini: Vec<char> = Vec::new();
    ini.push('i');
    ini.push('n');
    ini.push('i');
    proof {
        assert(ini@ =~= seq!['i', 'n', 'i']);
    }
    chars_eq_ic(ext, ini.as_slice())
}

/// The entries with their components as characters.
struct Listing {
    comps: Vec<Vec<Vec<char>>>,
}

impl Listing {
    spec fn matches(&self, es: Seq<StagedEntryView>) -> bool {
        &&& self.comps@.len() == es.len()
        &&& forall|i: int| 0 <= i < es.len() ==> views(#[trigger] self.comps@[i]@) == es[i].components
    }
}

fn meaningful_child_exec(listing: &Listing, tree: &StagedTree, i: usize, p: &Vec<Vec<char>>) -> (b: bool)
    requires
        listing.matches(tree.entry_views()),
        i < tree.entries@.len(),
    ensures
        b == meaningful_child(tree.entry_views()[i as int], views(p@)),
{
    let c = &listing.comps[i];
    proof {
        assert(views(c@) == tree.entry_views()[i as int].components);
    }
    if !is_child(c, p) {
        return false;
    }
    let last = &c[c.len() - 1];
    proof {
        assert(views(c@).last() == last@);
    }
    !is_junk(last.as_slice())
}

/// The only folder in `p` when `p` holds one folder and no file.
fn single_wrapper_exec(listing: &Listing, tree: &StagedTree, p: &Vec<Vec<char>>) -> (r: Option<usize>)
    requires
        listing.matches(tree.entry_views()),
    ensures
        ({
            let es = tree.entry_views();
            match r {
                Some(i) => i < es.len() && single_wrapper(es, views(p@)) == Some(es[i as int].components),
                None => single_wrapper(es, views(p@)) is None,
            }
        }),
{
    let ghost es = tree.entry_views();
    let ghost pv = views(p@);
    let mut files = false;
    let mut dir: Option<usize> = None;
    let mut many = false;
    let mut i: usize = 0;
    while i < tree.entries.len()
        invariant
            es == tree.entry_views(),
            pv == views(p@),
            listing.matches(es),
            i <= es.len(),
            files <==> exists|k: int| 0 <= k < i && meaningful_child(#[trigger] es[k], pv) && es[k].kind == StagedEntryKind::File,
            dir is None ==> forall|k: int| 0 <= k < i ==> !#[trigger] child_dir(es, k, pv),
            dir matches Some(d) ==> d < i && child_dir(es, d as int, pv),
            dir is Some && !many ==> forall|k: int| 0 <= k < i && #[trigger] child_dir(es, k, pv) ==> es[k].components
                == es[dir->0 as int].components,
            many ==> exists|a: int, b: int| #[trigger] child_dir(es, a, pv) && #[trigger] child_dir(es, b, pv)
                && es[a].components != es[b].components,
        decreases es.len() - i,
    {
        if meaningful_child_exec(listing, tree, i, p) {
            match tree.entries[i].kind {
                StagedEntryKind::File => {
                    files = true;
                },
                StagedEntryKind::Directory => {
                    match dir {
                        None => {
                            dir = Some(i);
                        },
                        Some(d) => {
                            if !same_components(&listing.comps[d], &listing.comps[i]) {
                                proof {
                                    assert(child_dir(es, d as int, pv) && child_dir(es, i as int, pv));
                                }
                                many = true;
                            }
                        },
                    }
                },
                StagedEntryKind::Other => {},
            }
        }
        i = i + 1;
    }
    if files {
        proof {
            let k = choose|k: int| 0 <= k < i && meaningful_child(#[trigger] es[k], pv) && es[k].kind == StagedEntryKind::File;
            assert(meaningful_child(es[k], pv));
        }
        return None;
    }
    match dir {
        None => None,
        Some(d) => {
            if many {
                None
            } else {
                proof {
                    assert(child_dir(es, d as int, pv));
                    let c = choose|k: int| #[trigger] child_dir(es, k, pv);
                    assert(es[c].components == es[d as int].components);
                }
                Some(d)
            }
        },
    }
}

proof fn lemma_unwrap_stops(es: Seq<StagedEntryView>, p: Seq<Seq<char>>, k: nat)
    requires
        single_wrapper(es, p) is None,
    ensures
        unwrap_wrappers(es, p, k) == (p, 0nat),
{
}

proof fn lemma_unwrap_step(es: Seq<StagedEntryView>, p: Seq<Seq<char>>, d: Seq<Seq<char>>, k: nat)
    requires
        k > 0,
        single_wrapper(es, p) == Some(d),
    ensures
        unwrap_wrappers(es, p, k) == (unwrap_wrappers(es, d, (k - 1) as nat).0, unwrap_wrappers(
            es,
            d,
            (k - 1) as nat,
        ).1 + 1),
{
}

fn contains_file_exec(listing: &Listing, tree: &StagedTree, p: &Vec<Vec<char>>) -> (b: bool)
    requires
        listing.matches(tree.entry_views()),
    ensures
        b == contains_file(tree.entry_views(), views(p@)),
{
    let ghost es = tree.entry_views();
    let mut i: usize = 0;
    while i < tree.entries.len()
        invariant
            es == tree.entry_views(),
            listing.matches(es),
            i <= es.len(),
            forall|k: int| 0 <= k < i ==> !(#[trigger] es[k].kind == StagedEntryKind::File && below(es[k].components, views(p@))),
        decreases es.len() - i,
    {
        if tree.entries[i].kind == StagedEntryKind::File && is_below(&listing.comps[i], p) {
            proof {
                assert(es[i as int].kind == StagedEntryKind::File);
            }
            return true;
        }
        i = i + 1;
    }
    false
}

/// Whether the top-level folder `d` (an entry) holds an `.ini` file at most
/// three levels into it.
fn branch_has_ini(listing: &Listing, tree: &StagedTree, d: &Vec<Vec<char>>) -> (b: bool)
    requires
        listing.matches(tree.entry_views()),
    ensures
        b == exists|j: int|
            0 <= j < tree.entry_views().len() && #[trigger] tree.entry_views()[j].kind == StagedEntryKind::File
                && below(tree.entry_views()[j].components, views(d@)) && tree.entry_views()[j].components.len()
                <= views(d@).len() + MAX_INI_BRANCH_DEPTH && ini_name(tree.entry_views()[j].components.last()),
{
    let ghost es = tree.entry_views();
    let ghost dv = views(d@);
    let mut i: usize = 0;
    while i < tree.entries.len()
        invariant
            es == tree.entry_views(),
            dv == views(d@),
            listing.matches(es),
            i <= es.len(),
            forall|k: int|
                0 <= k < i ==> !(#[trigger] es[k].kind == StagedEntryKind::File && below(es[k].components, dv)
                    && es[k].components.len() <= dv.len() + MAX_INI_BRANCH_DEPTH && ini_name(es[k].components.last())),
        decreases es.len() - i,
    {
        let c = &listing.comps[i];
        proof {
            assert(views(c@) == es[i as int].components);
        }
        if tree.entries[i].kind == StagedEntryKind::File && is_below(c, d) && c.len() - d.len() <= 3 {
            let last = &c[c.len() - 1];
            proof {
                assert(views(c@).last() == last@);
            }
            if is_ini_name(last.as_slice()) {
                proof {
                    assert(es[i as int].kind == StagedEntryKind::File);
                }
                return true;
            }
        }
        i = i + 1;
    }
    false
}

/// Whether two different top-level folders each hold an `.ini` file.
fn has_multiple_ini_branches(listing: &Listing, tree: &StagedTree) -> (b: bool)
    requires
        listing.matches(tree.entry_views()),
    ensures
        b == multiple_ini_branches(tree.entry_views()),
{
    let ghost es = tree.entry_views();
    let root: Vec<Vec<char>> = Vec::new();
    proof {
        assert(views(root@) =~= Seq::<Seq<char>>::empty());
    }
    let mut first: Option<usize> = None;
    let mut i: usize = 0;
    while i < tree.entries.len()
        invariant
            es == tree.entry_views(),
            listing.matches(es),
            views(root@) == Seq::<Seq<char>>::empty(),
            i <= es.len(),
            first matches Some(f) ==> f < i && ini_branch(es, es[f as int].components),
            first is None ==> forall|k: int| 0 <= k < i && #[trigger] child_dir(es, k, Seq::empty()) ==> !ini_branch(
                es,
                es[k].components,
            ),
            first is Some ==> forall|k: int|
                0 <= k < i && #[trigger] child_dir(es, k, Seq::empty()) && ini_branch(es, es[k].components)
                    ==> es[k].components == es[first->0 as int].components,
        decreases es.len() - i,
    {
        if tree.entries[i].kind == StagedEntryKind::Directory && meaningful_child_exec(listing, tree, i, &root) {
            proof {
                assert(child_dir(es, i as int, Seq::empty()));
            }
            if branch_has_ini(listing, tree, &listing.comps[i]) {
                proof {
                    assert(ini_branch(es, es[i as int].components));
                }
                match first {
                    None => {
                        first = Some(i);
                    },
                    Some(f) => {
                        if !same_components(&listing.comps[f], &listing.comps[i]) {
                            proof {
                                assert(es[f as int].components != es[i as int].components);
                            }
                            return true;
                        }
                    },
                }
            } else {
                proof {
                    assert(!ini_branch(es, es[i as int].components));
                }
            }
        }
        i = i + 1;
    }
    proof {
        assert forall|a: Seq<Seq<char>>, b: Seq<Seq<char>>| a != b && ini_branch(es, a) implies !ini_branch(es, b) by {
            let ka = choose|k: int| #[trigger] child_dir(es, k, Seq::empty()) && es[k].components == a;
            if ini_branch(es, b) {
                let kb = choose|k: int| #[trigger] child_dir(es, k, Seq::empty()) && es[k].components == b;
                assert(ini_branch(es, es[ka].components));
                assert(ini_branch(es, es[kb].components));
            }
        }
    }
    false
}

fn is_manifest_exec(listing: &Listing, tree: &StagedTree, i: usize) -> (b: bool)
    requires
        listing.matches(tree.entry_views()),
        i < tree.entries@.len(),
    ensures
        b == is_manifest(tree.entry_views()[i as int]),
{
    let c = &listing.comps[i];
    proof {
        assert(views(c@) == tree.entry_views()[i as int].components);
    }
    if tree.entries[i].kind != StagedEntryKind::File || c.len() < 1 || c.len() > MAX_MANIFEST_SEARCH_DEPTH {
        return false;
    }
    let last = &c[c.len() - 1];
    proof {
        assert(views(c@).last() == last@);
    }
    chars_eq_ic(last.as_slice(), to_chars("mod.json").as_slice())
}

fn parent_components(c: &Vec<Vec<char>>) -> (r: Vec<Vec<char>>)
    requires
        c@.len() >= 1,
    ensures
        views(r@) == views(c@).drop_last(),
{
    let mut r: Vec<Vec<char>> = Vec::new();
    let mut i: usize = 0;
    while i < c.len() - 1
        invariant
            c@.len() >= 1,
            i <= c@.len() - 1,
            r@.len() == i,
            views(r@) == views(c@).take(i as int),
        decreases c@.len() - i,
    {
        let v = slice_to_vec(c[i].as_slice());
        r.push(v);
        proof {
            assert(r@[i as int]@ == views(c@)[i as int]);
            assert(views(r@) =~= views(c@).take(i + 1));
        }
        i = i + 1;
    }
    proof {
        assert(views(c@).take(i as int) =~= views(c@).drop_last());
    }
    r
}

fn views_of_clone(c: &Vec<Vec<char>>) -> (r: Vec<Vec<char>>)
    ensures
        views(r@) == views(c@),
{
    let mut r: Vec<Vec<char>> = Vec::new();
    let mut i: usize = 0;
    while i < c.len()
        invariant
            i <= c@.len(),
            r@.len() == i,
            views(r@) == views(c@).take(i as int),
        decreases c@.len() - i,
    {
        let v = slice_to_vec(c[i].as_slice());
        r.push(v);
        proof {
            assert(r@[i as int]@ == views(c@)[i as int]);
            assert(views(r@) =~= views(c@).take(i + 1));
        }
        i = i + 1;
    }
    proof {
        assert(views(c@).take(c@.len() as int) =~= views(c@));
    }
    r
}

/// The folders that hold a `mod.json`, each once, in order of first
/// appearance.
fn manifest_parents(listing: &Listing, tree: &StagedTree) -> (r: Vec<Vec<Vec<char>>>)
    requires
        listing.matches(tree.entry_views()),
    ensures
        forall|k: int| 0 <= k < r@.len() ==> manifest_parent(tree.entry_views(), #[trigger] views(r@[k]@)),
        forall|p: Seq<Seq<char>>| #[trigger] manifest_parent(tree.entry_views(), p) ==> exists|k: int|
            0 <= k < r@.len() && views(#[trigger] r@[k]@) == p,
        forall|a: int, b: int| 0 <= a < b < r@.len() ==> views(#[trigger] r@[a]@) != views(#[trigger] r@[b]@),
{
    let ghost es = tree.entry_views();
    let mut r: Vec<Vec<Vec<char>>> = Vec::new();
    let mut i: usize = 0;
    while i < tree.entries.len()
        invariant
            es == tree.entry_views(),
            listing.matches(es),
            i <= es.len(),
            forall|k: int| 0 <= k < r@.len() ==> manifest_parent(es, #[trigger] views(r@[k]@)),
            forall|q: int| 0 <= q < i && is_manifest(#[trigger] es[q]) ==> exists|k: int|
                0 <= k < r@.len() && views(#[trigger] r@[k]@) == es[q].components.drop_last(),
            forall|a: int, b: int| 0 <= a < b < r@.len() ==> views(#[trigger] r@[a]@) != views(#[trigger] r@[b]@),
        decreases es.len() - i,
    {
        if is_manifest_exec(listing, tree, i) {
            let parent = parent_components(&listing.comps[i]);
            let mut known = false;
            let mut k: usize = 0;
            while k < r.len()
                invariant
                    k <= r@.len(),
                    known ==> exists|m: int| 0 <= m < r@.len() && views(#[trigger] r@[m]@) == views(parent@),
                    !known ==> forall|m: int| 0 <= m < k ==> views(#[trigger] r@[m]@) != views(parent@),
                decreases r@.len() - k,
            {
                if same_components(&r[k], &parent) {
                    known = true;
                }
                k = k + 1;
            }
            proof {
                assert(manifest_parent(es, views(parent@)));
            }
            if !known {
                let ghost old_r = r@;
                r.push(parent);
                proof {
                    assert(r@[old_r.len() as int] == parent);
                    assert forall|k: int| 0 <= k < r@.len() implies manifest_parent(es, #[trigger] views(r@[k]@)) by {
                        if k < old_r.len() {
                            assert(r@[k] == old_r[k]);
                        }
                    }
                    assert forall|q: int| 0 <= q < i + 1 && is_manifest(#[trigger] es[q]) implies exists|k: int|
                        0 <= k < r@.len() && views(#[trigger] r@[k]@) == es[q].components.drop_last() by {
                        if q < i {
                            let k = choose|k: int| 0 <= k < old_r.len() && views(#[trigger] old_r[k]@) == es[q].components.drop_last();
                            assert(r@[k] == old_r[k]);
                        } else {
                            assert(views(r@[old_r.len() as int]@) == es[q].components.drop_last());
                        }
                    }
                    assert forall|a: int, b: int| 0 <= a < b < r@.len() implies views(#[trigger] r@[a]@) != views(#[trigger] r@[b]@) by {
                        assert(r@[a] == old_r[a]);
                        if b < old_r.len() {
                            assert(r@[b] == old_r[b]);
                        }
                    }
                }
            }
        }
        i = i + 1;
    }
    proof {
        assert forall|p: Seq<Seq<char>>| #[trigger] manifest_parent(es, p) implies exists|k: int|
            0 <= k < r@.len() && views(#[trigger] r@[k]@) == p by {
            let q = choose|q: int| 0 <= q < es.len() && is_manifest(#[trigger] es[q]) && es[q].components.drop_last() == p;
            assert(is_manifest(es[q]));
        }
    }
    r
}

/// The first link or reparse point within the searched depth, if any.
fn first_shallow_link(tree: &StagedTree) -> (r: Option<usize>)
    ensures
        r is None <==> !shallow_link(tree.entry_views()),
        r matches Some(i) ==> i < tree.entries@.len(),
{
    let ghost es = tree.entry_views();
    let mut i: usize = 0;
    while i < tree.entries.len()
        invariant
            es == tree.entry_views(),
            i <= es.len(),
            forall|k: int| 0 <= k < i ==> !(#[trigger] es[k].link && es[k].components.len() <= MAX_MANIFEST_SEARCH_DEPTH),
        decreases es.len() - i,
    {
        if tree.entries[i].link && tree.entries[i].components.len() <= MAX_MANIFEST_SEARCH_DEPTH {
            proof {
                assert(es[i as int].link && es[i as int].components.len() <= MAX_MANIFEST_SEARCH_DEPTH);
            }
            return Some(i);
        }
        i = i + 1;
    }
    None
}

/// The components joined by `/`.
fn joined(c: &Vec<String>) -> (r: String)
    ensures
        r@ == crate::text::join_with(text_views(c@), '/'),
{
    let ghost parts = text_views(c@);
    let mut out: Vec<char> = Vec::new();
    let mut i: usize = 0;
    proof {
        assert(parts.take(0) =~= Seq::<Seq<char>>::empty());
    }
    while i < c.len()
        invariant
            i <= c@.len(),
            parts == text_views(c@),
            out@ == crate::text::join_with(parts.take(i as int), '/'),
        decreases c@.len() - i,
    {
        let ghost before = out@;
        if i > 0 {
            out.push('/');
        }
        out = concat_str(out.as_slice(), c[i].as_str());
        proof {
            let t = parts.take(i + 1);
            assert(t.drop_last() =~= parts.take(i as int));
            assert(t.last() == c@[i as int]@);
            if i == 0 {
                assert(out@ =~= t[0]);
            } else {
                assert(out@ =~= before + seq!['/'] + t.last());
            }
        }
        i = i + 1;
    }
    proof {
        assert(parts.take(c@.len() as int) =~= parts);
    }
    from_chars(out.as_slice())
}

/// Finds the root of the mod in extracted content.
///
/// The root must be a real, absolute folder, and no link or reparse point
/// may lie within five levels of it. A single folder holding `mod.json`
/// (within five levels) is the mod root; several are refused. Without one,
/// up to four wrapper folders (a folder whose only meaningful content is
/// one folder) are removed; content left at the top that spreads `.ini`
/// files over several folders is refused. The root must hold a regular
/// file somewhere below it.
pub fn detect_mod_root(tree: &StagedTree) -> (r: Result<DetectedModRoot, AppError>)
    ensures
        ({
            let es = tree.entry_views();
            let unwrapped = unwrap_wrappers(es, Seq::empty(), MAX_WRAPPER_DEPTH as nat);
            if !tree.root_absolute || tree.root_link {
                r matches Err(e) && e is UnsafePath
            } else if !tree.root_directory {
                r matches Err(e) && e is ModInstall
            } else if shallow_link(es) {
                r matches Err(e) && e is UnsafePath
            } else if multiple_manifests(es) {
                r matches Err(e) && e is ModInstall
            } else if exists|p: Seq<Seq<char>>| manifest_parent(es, p) {
                let p = choose|p: Seq<Seq<char>>| manifest_parent(es, p);
                if contains_file(es, p) {
                    &&& r matches Ok(d) && text_views(d.path@) == p
                    &&& r matches Ok(d) && text_views(d.warnings@) == (if p.len() > 0 {
                        seq![located_by_manifest_warning()]
                    } else {
                        Seq::<Seq<char>>::empty()
                    })
                } else {
                    r matches Err(e) && e is ModInstall
                }
            } else if !contains_file(es, unwrapped.0) {
                r matches Err(e) && e is ModInstall
            } else if unwrapped.1 == 0 && multiple_ini_branches(es) {
                r matches Err(e) && e is ModInstall
            } else {
                &&& r matches Ok(d) && text_views(d.path@) == unwrapped.0
                &&& r matches Ok(d) && text_views(d.warnings@) == (if unwrapped.1 > 0 {
                    seq![unwrapped_warning(unwrapped.1)]
                } else {
                    seq![no_manifest_warning()]
                })
            }
        }),
{
    let ghost es = tree.entry_views();
    if !tree.root_absolute || tree.root_link {
        return Err(AppError::UnsafePath(msg("待分析的模组根目录必须是非链接的绝对目录。")));
    }
    if !tree.root_directory {
        return Err(AppError::ModInstall(msg("解压后的模组内容不是目录。")));
    }
    if let Some(i) = first_shallow_link(tree) {
        let mut text = to_chars("待安装内容包含链接或重解析点：");
        text = concat_str(text.as_slice(), joined(&tree.entries[i].components).as_str());
        text = concat_str(text.as_slice(), "。");
        return Err(AppError::UnsafePath(from_chars(text.as_slice())));
    }
    let mut comps: Vec<Vec<Vec<char>>> = Vec::new();
    let mut i: usize = 0;
    while i < tree.entries.len()
        invariant
            es == tree.entry_views(),
            i <= es.len(),
            comps@.len() == i,
            forall|k: int| 0 <= k < i ==> views(#[trigger] comps@[k]@) == es[k].components,
        decreases es.len() - i,
    {
        comps.push(component_chars(&tree.entries[i].components));
        i = i + 1;
    }
    let listing = Listing { comps };
    let parents = manifest_parents(&listing, tree);
    if parents.len() > 1 {
        proof {
            assert(views(parents@[0]@) != views(parents@[1]@));
            assert(manifest_parent(es, views(parents@[0]@)) && manifest_parent(es, views(parents@[1]@)));
        }
        let mut text = to_chars("压缩包包含 ");
        text = concat(text.as_slice(), decimal_chars(parents.len() as u64).as_slice());
        text = concat_str(text.as_slice(), " 个独立 mod.json，无法安全判断唯一模组根目录；请分别导入。");
        return Err(AppError::ModInstall(from_chars(text.as_slice())));
    }
    proof {
        assert forall|a: Seq<Seq<char>>, b: Seq<Seq<char>>| manifest_parent(es, a) && manifest_parent(es, b) implies a == b by {
            let ka = choose|k: int| 0 <= k < parents@.len() && views(#[trigger] parents@[k]@) == a;
            let kb = choose|k: int| 0 <= k < parents@.len() && views(#[trigger] parents@[k]@) == b;
        }
    }
    if parents.len() == 1 {
        let root = &parents[0];
        proof {
            assert(manifest_parent(es, views(root@)));
            let p = choose|p: Seq<Seq<char>>| manifest_parent(es, p);
            assert(p == views(root@));
        }
        if !contains_file_exec(&listing, tree, root) {
            return Err(AppError::ModInstall(msg("导入内容不包含任何普通文件。")));
        }
        let mut warnings: Vec<String> = Vec::new();
        if root.len() > 0 {
            warnings.push(msg("已根据唯一的 mod.json 自动定位真正的模组根目录。"));
        }
        proof {
            assert(text_views(warnings@) =~= (if views(root@).len() > 0 {
                seq![located_by_manifest_warning()]
            } else {
                Seq::<Seq<char>>::empty()
            }));
        }
        return Ok(DetectedModRoot { path: component_strings(root), warnings });
    }
    proof {
        assert forall|p: Seq<Seq<char>>| !manifest_parent(es, p) by {
            if manifest_parent(es, p) {
                let k = choose|k: int| 0 <= k < parents@.len() && views(#[trigger] parents@[k]@) == p;
            }
        }
    }
    let mut current: Vec<Vec<char>> = Vec::new();
    let mut n: usize = 0;
    proof {
        assert(views(current@) =~= Seq::<Seq<char>>::empty());
    }
    while n < MAX_WRAPPER_DEPTH
        invariant_except_break
            n <= MAX_WRAPPER_DEPTH,
        invariant
            es == tree.entry_views(),
            listing.matches(es),
            ({
                let u = unwrap_wrappers(es, views(current@), (MAX_WRAPPER_DEPTH - n) as nat);
                unwrap_wrappers(es, Seq::empty(), MAX_WRAPPER_DEPTH as nat) == (u.0, (u.1 + n) as nat)
            }),
        ensures
            n <= MAX_WRAPPER_DEPTH,
            unwrap_wrappers(es, Seq::empty(), MAX_WRAPPER_DEPTH as nat) == (views(current@), n as nat),
        decreases MAX_WRAPPER_DEPTH - n,
    {
        match single_wrapper_exec(&listing, tree, &current) {
            Some(d) => {
                let next = views_of_clone(&listing.comps[d]);
                proof {
                    lemma_unwrap_step(es, views(current@), views(next@), (MAX_WRAPPER_DEPTH - n) as nat);
                }
                current = next;
                n = n + 1;
            },
            None => {
                proof {
                    lemma_unwrap_stops(es, views(current@), (MAX_WRAPPER_DEPTH - n) as nat);
                }
                break;
            },
        }
    }
    if !contains_file_exec(&listing, tree, &current) {
        return Err(AppError::ModInstall(msg("导入内容不包含任何普通文件。")));
    }
    let mut warnings: Vec<String> = Vec::new();
    if n > 0 {
        let mut text = to_chars("已自动移除 ");
        text = concat(text.as_slice(), decimal_chars(n as u64).as_slice());
        text = concat_str(text.as_slice(), " 层仅用于打包的外层目录。");
        warnings.push(from_chars(text.as_slice()));
        proof {
            assert(warnings@[0]@ == unwrapped_warning(n as nat));
        }
    }
    if n == 0 && has_multiple_ini_branches(&listing, tree) {
        return Err(AppError::ModInstall(
            msg("压缩包顶层包含多个疑似独立 EFMI 模组目录，无法安全自动合并；请分别导入。"),
        ));
    }
    if n == 0 {
        warnings.push(msg("未找到作者 mod.json；AEMM 将把当前包根目录视为一个模组并生成内部元数据。"));
    }
    proof {
        let u = unwrap_wrappers(es, Seq::empty(), MAX_WRAPPER_DEPTH as nat);
        assert(text_views(warnings@) =~= (if u.1 > 0 {
            seq![unwrapped_warning(u.1)]
        } else {
            seq![no_manifest_warning()]
        }));
    }
    Ok(DetectedModRoot { path: component_strings(&current), warnings })
}

/// Whether a name is one that archive tools add and that never belongs to a
/// mod.
pub fn is_packaging_junk(name: &str) -> (b: bool)
    ensures
        b == junk_name(name@),
{
    is_junk(to_chars(name).as_slice())
}

} // verus!
