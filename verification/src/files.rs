//! The file browser: which directory entries are listed, how they are
//! counted and in what order they come.
use vstd::prelude::*;

use crate::order::{
    chars_less, lemma_text_less_irreflexive, lemma_text_less_total,
    lemma_text_less_transitive, stable_sort, stable_sorted, text_less, views, Ranked,
};
use crate::paths::{
    in_name_order, joined, parent_display, plain_names, relative_display, rooted, shows_path,
    sort_paths,
};
use crate::summary::count_where;
use crate::text::{ascii_lower, chars_equal, chars_of, lower_chars, slice_range, string_from_chars};

verus! {

/// The position of the last '.' in `name`, if any.
pub open spec fn last_dot(name: Seq<char>) -> Option<int>
    decreases name.len(),
{
    if name.len() == 0 {
        None
    } else if name.last() == '.' {
        Some(name.len() - 1)
    } else {
        last_dot(name.drop_last())
    }
}

/// The extension of a file name, as `Path::extension` documents it: none
/// for "..", none without a '.', none where the only '.' comes first, else
/// what follows the last '.'.
pub open spec fn extension_of(name: Seq<char>) -> Option<Seq<char>> {
    if name == ".."@ {
        None
    } else {
        match last_dot(name) {
            None => None,
            Some(i) => if i == 0 {
                None
            } else {
                Some(name.skip(i + 1))
            },
        }
    }
}

/// A Solidity file name: its extension is "sol", in any ASCII case.
pub open spec fn is_solidity_name(name: Seq<char>) -> bool {
    match extension_of(name) {
        Some(ext) => ascii_lower(ext) == "sol"@,
        None => false,
    }
}

proof fn lemma_last_dot(name: Seq<char>, i: int)
    requires
        -1 <= i < name.len(),
        i >= 0 ==> name[i] == '.',
        forall|j: int| i < j < name.len() ==> name[j] != '.',
    ensures
        last_dot(name) == (if i >= 0 {
            Some(i)
        } else {
            None::<int>
        }),
    decreases name.len(),
{
    if name.len() > 0 && i < name.len() - 1 {
        let t = name.drop_last();
        assert forall|j: int| i < j < t.len() implies t[j] != '.' by {
            assert(t[j] == name[j]);
        }
        if i >= 0 {
            assert(t[i] == name[i]);
        }
        lemma_last_dot(t, i);
    }
}

/// The extension of a file name.
pub fn file_extension(name: &str) -> (res: Option<String>)
    ensures
        match res {
            Some(e) => extension_of(name@) == Some(e@),
            None => extension_of(name@) is None,
        },
{
    let v = chars_of(name);
    let dd = chars_of("..");
    if chars_equal(v.as_slice(), dd.as_slice()) {
        return None;
    }
    let mut i: usize = v.len();
    while i > 0 && v[i - 1] != '.'
        invariant
            i <= v@.len(),
            forall|j: int| i <= j < v@.len() ==> v@[j] != '.',
        decreases i,
    {
        i = i - 1;
    }
    proof {
        lemma_last_dot(v@, i - 1);
    }
    if i <= 1 {
        None
    } else {
        let e = slice_range(v.as_slice(), i, v.len());
        Some(string_from_chars(e.as_slice()))
    }
}

/// Whether a file name is that of a Solidity file.
pub fn is_solidity_file_name(name: &str) -> (r: bool)
    ensures
        r == is_solidity_name(name@),
{
    match file_extension(name) {
        Some(ext) => {
            let e = chars_of(ext.as_str());
            let l = lower_chars(e.as_slice());
            let sol = chars_of("sol");
            chars_equal(l.as_slice(), sol.as_slice())
        },
        None => false,
    }
}

/// An entry of a directory listing.
pub struct FileEntry {
    pub name: String,
    pub relative_path: String,
    pub is_dir: bool,
}

/// The content of an entry.
pub struct FileEntryView {
    pub name: Seq<char>,
    pub relative_path: Seq<char>,
    pub is_dir: bool,
}

impl View for FileEntry {
    type V = FileEntryView;

    open spec fn view(&self) -> FileEntryView {
        FileEntryView { name: self.name@, relative_path: self.relative_path@, is_dir: self.is_dir }
    }
}

/// Directories come first; within each group, names in ASCII lower case
/// are in text order.
pub open spec fn entry_precedes(a: FileEntryView, b: FileEntryView) -> bool {
    if a.is_dir != b.is_dir {
        a.is_dir
    } else {
        text_less(ascii_lower(a.name), ascii_lower(b.name))
    }
}

impl Ranked for FileEntry {
    open spec fn precedes(a: FileEntryView, b: FileEntryView) -> bool {
        entry_precedes(a, b)
    }

    proof fn lemma_precedes_irreflexive(a: FileEntryView) {
        lemma_text_less_irreflexive(ascii_lower(a.name));
    }

    proof fn lemma_precedes_transitive(a: FileEntryView, b: FileEntryView, c: FileEntryView) {
        if a.is_dir == b.is_dir && b.is_dir == c.is_dir {
            lemma_text_less_transitive(ascii_lower(a.name), ascii_lower(b.name), ascii_lower(c.name));
        }
    }

    proof fn lemma_not_precedes_transitive(a: FileEntryView, b: FileEntryView, c: FileEntryView) {
        let (la, lb, lc) = (ascii_lower(a.name), ascii_lower(b.name), ascii_lower(c.name));
        lemma_text_less_total(la, lb);
        lemma_text_less_total(lb, lc);
        if a.is_dir == b.is_dir && b.is_dir == c.is_dir && text_less(la, lc) {
            if la != lb && lb != lc {
                lemma_text_less_transitive(lb, la, lc);
                lemma_text_less_transitive(lc, lb, la);
                lemma_text_less_transitive(la, lc, lb);
            }
        }
    }

    fn precedes_exec(&self, other: &Self) -> (r: bool) {
        if self.is_dir != other.is_dir {
            return self.is_dir;
        }
        let a = chars_of(self.name.as_str());
        let b = chars_of(other.name.as_str());
        let la = lower_chars(a.as_slice());
        let lb = lower_chars(b.as_slice());
        chars_less(la.as_slice(), lb.as_slice())
    }
}

/// What the file browser answers for a directory.
pub struct FilesResponse {
    pub root_dir: String,
    pub current_path: String,
    pub parent_path: Option<String>,
    pub direct_subdirectories: usize,
    pub direct_solidity_files: usize,
    pub recursive_solidity_files: usize,
    pub entries: Vec<FileEntry>,
}

/// An entry is listed when it is a directory or a Solidity file.
pub open spec fn is_listed(e: FileEntryView) -> bool {
    e.is_dir || is_solidity_name(e.name)
}

/// The entries that are listed, in directory order.
pub open spec fn listed_entries(entries: Seq<FileEntryView>) -> Seq<FileEntryView>
    decreases entries.len(),
{
    if entries.len() == 0 {
        Seq::empty()
    } else if is_listed(entries.last()) {
        listed_entries(entries.drop_last()).push(entries.last())
    } else {
        listed_entries(entries.drop_last())
    }
}

/// How many entries are directories.
pub open spec fn dir_count(entries: Seq<FileEntryView>) -> nat {
    count_where(entries, |e: FileEntryView| e.is_dir)
}

/// How many entries are Solidity files (and not directories).
pub open spec fn solidity_file_count(entries: Seq<FileEntryView>) -> nat {
    count_where(entries, |e: FileEntryView| !e.is_dir && is_solidity_name(e.name))
}

/// Lists a directory: counts its subdirectories and Solidity files, and
/// keeps those, directories first and then by lower-cased name.
pub fn list_entries(entries: Vec<FileEntry>) -> (res: (Vec<FileEntry>, usize, usize))
    ensures
        views(res.0@) == stable_sorted::<FileEntry>(listed_entries(views(entries@))),
        res.1 == dir_count(views(entries@)),
        res.2 == solidity_file_count(views(entries@)),
{
    let ghost all = views(entries@);
    let ghost pd = |e: FileEntryView| e.is_dir;
    let ghost ps = |e: FileEntryView| !e.is_dir && is_solidity_name(e.name);
    let n = entries.len();
    let mut rest = entries;
    let mut kept: Vec<FileEntry> = Vec::new();
    let mut dirs: usize = 0;
    let mut sols: usize = 0;
    let mut k: usize = 0;
    assert(all.skip(0) == all);
    while k < n
        invariant
            n == all.len(),
            k <= n,
            views(rest@) == all.skip(k as int),
            views(kept@) == listed_entries(all.take(k as int)),
            pd == (|e: FileEntryView| e.is_dir),
            ps == (|e: FileEntryView| !e.is_dir && is_solidity_name(e.name)),
            dirs == count_where(all.take(k as int), pd),
            sols == count_where(all.take(k as int), ps),
            dirs + sols <= k,
        decreases n - k,
    {
        assert(views(rest@).len() == n - k);
        let ghost before = rest@;
        let e = rest.remove(0);
        proof {
            assert(before[0] == e);
            assert(views(before)[0] == e@);
            assert(e@ == all[k as int]);
            assert(all.take(k + 1).drop_last() == all.take(k as int));
            assert(all.take(k + 1).last() == e@);
            assert(views(rest@) == all.skip(k + 1)) by {
                assert(views(before.drop_first()) == views(before).drop_first());
                assert(all.skip(k as int).drop_first() == all.skip(k + 1));
            }
        }
        let solidity = is_solidity_file_name(e.name.as_str());
        if e.is_dir {
            dirs = dirs + 1;
        } else if solidity {
            sols = sols + 1;
        }
        if e.is_dir || solidity {
            let ghost kb = kept@;
            kept.push(e);
            assert(views(kept@) == views(kb).push(all[k as int]));
        }
        k = k + 1;
    }
    assert(all.take(n as int) == all);
    (stable_sort(kept), dirs, sols)
}

/// The file browser's answer for `dir`: the root, where `dir` lies and its
/// parent (none for the root), the counts, and the listed entries in order.
pub fn build_files_response(
    root_dir: &str,
    dir: &str,
    entries: Vec<FileEntry>,
    recursive_solidity_files: usize,
) -> (res: FilesResponse)
    ensures
        res.root_dir@ == root_dir@,
        dir@ == root_dir@ ==> res.current_path@.len() == 0 && res.parent_path is None,
        shows_path(root_dir@, dir@, res.current_path@),
        res.parent_path matches Some(r) ==> exists|parent: Seq<char>| shows_path(
            root_dir@,
            parent,
            r@,
        ),
        forall|a: Seq<Seq<char>>, b: Seq<Seq<char>>|
            #![trigger rooted(a), rooted(a + b)]
            plain_names(a) && plain_names(b) && b.len() > 0 && root_dir@ == rooted(a) && dir@
                == rooted(a + b) ==> (res.parent_path matches Some(r) && r@ == joined(
                b.drop_last(),
            )),
        views(res.entries@) == stable_sorted::<FileEntry>(listed_entries(views(entries@))),
        res.direct_subdirectories == dir_count(views(entries@)),
        res.direct_solidity_files == solidity_file_count(views(entries@)),
        res.recursive_solidity_files == recursive_solidity_files,
{
    let (listed, dirs, sols) = list_entries(entries);
    let current_path = relative_display(root_dir, dir);
    let parent_path = parent_display(root_dir, dir);
    proof {
        reveal(shows_path);
    }
    FilesResponse {
        root_dir: String::from_str(root_dir),
        current_path,
        parent_path,
        direct_subdirectories: dirs,
        direct_solidity_files: sols,
        recursive_solidity_files,
        entries: listed,
    }
}

/// A target is analysed file by file: a file is its own only target; a
/// directory's targets are the Solidity files under it, which must not be
/// none; anything else is refused.
pub fn select_analysis_targets(
    target: String,
    is_file: bool,
    is_dir: bool,
    solidity_files: Vec<String>,
) -> (res: Result<Vec<String>, crate::error::ApiError>)
    ensures
        is_file ==> (res matches Ok(v) && v@.len() == 1 && v@[0]@ == target@),
        !is_file && !is_dir ==> (res matches Err(e) && crate::error::is_error(
            e,
            crate::error::ApiStatus::BadRequest,
            "selected target must be a Solidity file or directory"@,
        )),
        !is_file && is_dir && solidity_files@.len() == 0 ==> (res matches Err(e)
            && crate::error::is_error(
            e,
            crate::error::ApiStatus::BadRequest,
            "selected directory does not contain Solidity files"@,
        )),
        !is_file && is_dir && solidity_files@.len() > 0 ==> res == Ok::<
            Vec<String>,
            crate::error::ApiError,
        >(solidity_files),
{
    if is_file {
        let mut v: Vec<String> = Vec::new();
        v.push(target);
        return Ok(v);
    }
    if !is_dir {
        return Err(
            crate::error::ApiError::bad_request(
                "selected target must be a Solidity file or directory",
            ),
        );
    }
    if solidity_files.len() == 0 {
        return Err(
            crate::error::ApiError::bad_request(
                "selected directory does not contain Solidity files",
            ),
        );
    }
    Ok(solidity_files)
}

/// What was found under a directory: each entry's name and path, whether
/// it is a directory, and, for a directory, what was found under it.
pub struct DirNode {
    pub name: String,
    pub path: String,
    pub is_dir: bool,
    pub children: Vec<DirNode>,
}

/// The paths of the Solidity files at or under an entry, in the order found.
pub open spec fn node_solidity_paths(n: DirNode) -> Seq<Seq<char>>
    decreases n,
{
    if n.is_dir {
        forest_solidity_paths(n.children@)
    } else if is_solidity_name(n.name@) {
        seq![n.path@]
    } else {
        Seq::empty()
    }
}

/// The paths of the Solidity files at or under the entries, in the order
/// found.
pub open spec fn forest_solidity_paths(ns: Seq<DirNode>) -> Seq<Seq<char>>
    decreases ns,
{
    if ns.len() == 0 {
        Seq::empty()
    } else {
        forest_solidity_paths(ns.drop_last()) + node_solidity_paths(ns.last())
    }
}

/// Appends the paths of the Solidity files at or under the entries.
fn collect_solidity_paths(ns: &Vec<DirNode>, out: &mut Vec<String>)
    ensures
        views(final(out)@) == views(old(out)@) + forest_solidity_paths(ns@),
    decreases ns@,
{
    let ghost start = views(out@);
    let mut i: usize = 0;
    assert(ns@.take(0) =~= Seq::<DirNode>::empty());
    while i < ns.len()
        invariant
            i <= ns@.len(),
            views(out@) == start + forest_solidity_paths(ns@.take(i as int)),
        decreases ns@.len() - i,
    {
        let n = &ns[i];
        proof {
            let t = ns@.take(i + 1);
            assert(t.drop_last() =~= ns@.take(i as int));
            assert(t.last() == ns@[i as int]);
            assert(forest_solidity_paths(t) == forest_solidity_paths(ns@.take(i as int))
                + node_solidity_paths(ns@[i as int]));
        }
        let ghost before = views(out@);
        if n.is_dir {
            proof {
                assert(decreases_to!(ns@ => ns@[i as int]));
                assert(decreases_to!(ns@[i as int] => ns@[i as int].children));
                assert(decreases_to!(ns@[i as int].children => ns@[i as int].children@));
            }
            collect_solidity_paths(&n.children, out);
            assert(views(out@) == before + node_solidity_paths(ns@[i as int]));
        } else if is_solidity_file_name(n.name.as_str()) {
            out.push(String::from_str(n.path.as_str()));
            assert(views(out@) =~= before + seq![n.path@]);
            assert(views(out@) == before + node_solidity_paths(ns@[i as int]));
        } else {
            assert(node_solidity_paths(ns@[i as int]) =~= Seq::<Seq<char>>::empty());
            assert(views(out@) =~= before + node_solidity_paths(ns@[i as int]));
        }
        assert(views(out@) =~= start + forest_solidity_paths(ns@.take(i + 1)));
        i = i + 1;
    }
    assert(ns@.take(ns@.len() as int) =~= ns@);
}

/// `e` lists the entry `n` as the file browser shows it under `root`.
pub open spec fn entry_of(root: Seq<char>, n: DirNode, e: FileEntryView) -> bool {
    &&& e.name == n.name@
    &&& e.is_dir == n.is_dir
    &&& shows_path(root, n.path@, e.relative_path)
}

/// Every Solidity file among a directory's own entries is among the
/// Solidity files found under it, so the directory's own count never exceeds
/// the count of all the Solidity files under it.
pub proof fn lemma_direct_solidity_within_recursive(
    root: Seq<char>,
    ns: Seq<DirNode>,
    es: Seq<FileEntryView>,
)
    requires
        es.len() == ns.len(),
        forall|i: int| 0 <= i < es.len() ==> entry_of(root, ns[i], #[trigger] es[i]),
    ensures
        solidity_file_count(es) <= forest_solidity_paths(ns).len(),
        forall|i: int|
            0 <= i < ns.len() && !ns[i].is_dir && is_solidity_name(ns[i].name@)
                ==> forest_solidity_paths(ns).contains(#[trigger] ns[i].path@),
    decreases ns.len(),
{
    if ns.len() > 0 {
        let nd = ns.drop_last();
        let ed = es.drop_last();
        assert forall|i: int| 0 <= i < ed.len() implies entry_of(root, nd[i], #[trigger] ed[i]) by {
            assert(ed[i] == es[i]);
            assert(nd[i] == ns[i]);
        }
        lemma_direct_solidity_within_recursive(root, nd, ed);
        assert(entry_of(root, ns.last(), es.last()));
        let whole = forest_solidity_paths(ns);
        let front = forest_solidity_paths(nd);
        assert(whole == front + node_solidity_paths(ns.last()));
        assert forall|i: int|
            0 <= i < ns.len() && !ns[i].is_dir && is_solidity_name(ns[i].name@) implies whole.contains(
            #[trigger] ns[i].path@,
        ) by {
            if i < nd.len() {
                assert(nd[i] == ns[i]);
                let k = choose|k: int| 0 <= k < front.len() && front[k] == nd[i].path@;
                assert(whole[k] == front[k]);
            } else {
                assert(whole[front.len() as int] == ns.last().path@);
            }
        }
    }
}

/// The file browser's answer for `dir`, from what was found under it: the
/// listing and the direct counts from its own entries, and the count of all
/// the Solidity files under it, which is never below the direct count.
pub fn files_response_from_tree(root_dir: &str, dir: &str, nodes: Vec<DirNode>) -> (res:
    FilesResponse)
    ensures
        res.root_dir@ == root_dir@,
        dir@ == root_dir@ ==> res.current_path@.len() == 0 && res.parent_path is None,
        shows_path(root_dir@, dir@, res.current_path@),
        res.parent_path matches Some(r) ==> exists|parent: Seq<char>| shows_path(
            root_dir@,
            parent,
            r@,
        ),
        forall|a: Seq<Seq<char>>, b: Seq<Seq<char>>|
            #![trigger rooted(a), rooted(a + b)]
            plain_names(a) && plain_names(b) && b.len() > 0 && root_dir@ == rooted(a) && dir@
                == rooted(a + b) ==> (res.parent_path matches Some(r) && r@ == joined(
                b.drop_last(),
            )),
        exists|es: Seq<FileEntryView>|
            {
                &&& es.len() == nodes@.len()
                &&& forall|i: int|
                    0 <= i < es.len() ==> entry_of(root_dir@, nodes@[i], #[trigger] es[i])
                &&& views(res.entries@) == stable_sorted::<FileEntry>(listed_entries(es))
                &&& res.direct_subdirectories == dir_count(es)
                &&& res.direct_solidity_files == solidity_file_count(es)
            },
        res.recursive_solidity_files == forest_solidity_paths(nodes@).len(),
        res.direct_solidity_files <= res.recursive_solidity_files,
{
    let mut found: Vec<String> = Vec::new();
    collect_solidity_paths(&nodes, &mut found);
    assert(views(found@) =~= forest_solidity_paths(nodes@));
    let mut entries: Vec<FileEntry> = Vec::new();
    let mut i: usize = 0;
    while i < nodes.len()
        invariant
            i <= nodes@.len(),
            entries@.len() == i,
            forall|k: int| 0 <= k < i ==> entry_of(root_dir@, nodes@[k], #[trigger] entries@[k]@),
        decreases nodes@.len() - i,
    {
        let n = &nodes[i];
        let e = FileEntry {
            name: String::from_str(n.name.as_str()),
            relative_path: relative_display(root_dir, n.path.as_str()),
            is_dir: n.is_dir,
        };
        entries.push(e);
        i = i + 1;
    }
    let ghost es = views(entries@);
    proof {
        assert forall|k: int| 0 <= k < es.len() implies entry_of(root_dir@, nodes@[k], #[trigger] es[k]) by {
            assert(es[k] == entries@[k]@);
        }
        lemma_direct_solidity_within_recursive(root_dir@, nodes@, es);
    }
    build_files_response(root_dir, dir, entries, found.len())
}

/// The analysis targets of what the file system said of a target, with what
/// was found under it: for a directory, the Solidity files under it, in path
/// order. The same paths come back, none lost or added; paths from the root
/// made of plain names come in the order of their names.
pub fn collect_analysis_targets(
    target: String,
    is_file: bool,
    is_dir: bool,
    tree: &Vec<DirNode>,
) -> (res: Result<Vec<String>, crate::error::ApiError>)
    ensures
        is_file ==> (res matches Ok(v) && v@.len() == 1 && v@[0]@ == target@),
        !is_file && !is_dir ==> (res matches Err(e) && crate::error::is_error(
            e,
            crate::error::ApiStatus::BadRequest,
            "selected target must be a Solidity file or directory"@,
        )),
        !is_file && is_dir && forest_solidity_paths(tree@).len() == 0 ==> (res matches Err(e)
            && crate::error::is_error(
            e,
            crate::error::ApiStatus::BadRequest,
            "selected directory does not contain Solidity files"@,
        )),
        !is_file && is_dir && forest_solidity_paths(tree@).len() > 0 ==> (res matches Ok(v)
            && views(v@).to_multiset() == forest_solidity_paths(tree@).to_multiset()
            && in_name_order(views(v@))),
{
    if !is_file && is_dir {
        let mut found: Vec<String> = Vec::new();
        collect_solidity_paths(tree, &mut found);
        assert(views(found@) =~= forest_solidity_paths(tree@));
        let sorted = sort_paths(found);
        proof {
            vstd::seq_lib::to_multiset_len(views(sorted@));
            vstd::seq_lib::to_multiset_len(views(found@));
        }
        select_analysis_targets(target, is_file, is_dir, sorted)
    } else {
        select_analysis_targets(target, is_file, is_dir, Vec::new())
    }
}

} // verus!
