//! Paths under the served root: how they are shown, and how a requested
//! path is checked before it is used.
use vstd::prelude::*;

use crate::error::{is_error, ApiError, ApiStatus};
use crate::order::{text_less, views};
use crate::progress::opt_view;
use crate::text::{chars_equal, chars_of, string_from_chars, trim, trim_chars};

verus! {

/// A name that every platform reads as one plain path component once it
/// follows a separator: not empty, not "." or "..", and free of '/' and
/// '\\'.
pub open spec fn is_plain_name(n: Seq<char>) -> bool {
    &&& n.len() > 0
    &&& n != seq!['.']
    &&& n != seq!['.', '.']
    &&& forall|i: int| 0 <= i < n.len() ==> n[i] != '/' && n[i] != '\\'
}

/// A relative path whose first name holds no ':', so that no platform reads
/// a drive or other prefix in it.
pub open spec fn no_drive(ns: Seq<Seq<char>>) -> bool {
    ns.len() > 0 ==> !ns[0].contains(':')
}

/// Every name is plain.
pub open spec fn plain_names(ns: Seq<Seq<char>>) -> bool {
    forall|i: int| 0 <= i < ns.len() ==> is_plain_name(#[trigger] ns[i])
}

/// The names joined by '/': a relative path.
pub open spec fn joined(ns: Seq<Seq<char>>) -> Seq<char>
    decreases ns.len(),
{
    if ns.len() == 0 {
        Seq::empty()
    } else if ns.len() == 1 {
        ns[0]
    } else {
        joined(ns.drop_last()) + seq!['/'] + ns.last()
    }
}

/// '/' followed by the names joined by '/': a path from the root.
#[verifier::opaque]
pub open spec fn rooted(ns: Seq<Seq<char>>) -> Seq<char> {
    seq!['/'] + joined(ns)
}

/// `Path::strip_prefix`: the rest of `path` after the components of `base`,
/// as text, where `base` is a prefix of `path`. What is a component depends
/// on the platform's separators, so the contract states only what the
/// documentation shows on every platform: a path stripped of itself leaves
/// the empty path, and a path from the root made of plain names, stripped
/// of a path made of its first names, leaves the remaining names (as
/// `/test/haha/foo.txt` stripped of `/test` leaves `haha/foo.txt`); and,
/// as the documentation says of a base that the path does not start with,
/// such a path whose names do not begin with the base's gives nothing.
#[verifier::external_body]
fn strip_path_prefix(path: &str, base: &str) -> (res: Option<String>)
    ensures
        path@ == base@ ==> opt_view(res) == Some(Seq::<char>::empty()),
        forall|a: Seq<Seq<char>>, b: Seq<Seq<char>>|
            #![trigger rooted(a), joined(b)]
            plain_names(a) && plain_names(b) && b.len() > 0 && base@ == rooted(a) && path@
                == rooted(a + b) ==> opt_view(res) == Some(joined(b)),
        forall|a: Seq<Seq<char>>, c: Seq<Seq<char>>|
            #![trigger rooted(a), rooted(c)]
            plain_names(a) && plain_names(c) && base@ == rooted(a) && path@ == rooted(c)
                && !a.is_prefix_of(c) ==> res is None,
{
    std::path::Path::new(path).strip_prefix(base).ok().map(|r| r.to_string_lossy().into_owned())
}

/// `Path::is_absolute`. Which paths are absolute depends on the platform
/// (a path from the root is absolute on Unix, not on Windows); the contract
/// states only that the empty path, and plain names joined by '/' whose first
/// name holds no ':' (no drive), are not.
#[verifier::external_body]
fn path_is_absolute(path: &str) -> (r: bool)
    ensures
        path@.len() == 0 ==> !r,
        forall|b: Seq<Seq<char>>|
            #![trigger joined(b)]
            plain_names(b) && b.len() > 0 && no_drive(b) && path@ == joined(b) ==> !r,
{
    std::path::Path::new(path).is_absolute()
}

/// `p` is the path from the root of names `a`, extended by the names `b`:
/// with '/' between, which is the path from the root of all the names, or
/// with the Windows separator '\\' after a root that has names.
pub open spec fn joined_onto(a: Seq<Seq<char>>, b: Seq<Seq<char>>, p: Seq<char>) -> bool {
    ||| p == rooted(a + b)
    ||| (a.len() > 0 && p == rooted(a) + seq!['\\'] + joined(b))
}

/// `Path::join`, as text. Joining a relative path of plain names, whose
/// first name holds no ':', onto a path from the root made of plain names
/// extends it by those names: the platform's separator goes between, '/'
/// (the one path from the root of all the names) or, on Windows, '\\';
/// after the bare root none is added.
#[verifier::external_body]
fn path_join(base: &str, rel: &str) -> (res: String)
    ensures
        forall|a: Seq<Seq<char>>, b: Seq<Seq<char>>|
            #![trigger rooted(a), joined(b)]
            plain_names(a) && plain_names(b) && b.len() > 0 && no_drive(b) && base@ == rooted(a)
                && rel@ == joined(b) ==> joined_onto(a, b, res@),
{
    std::path::Path::new(base).join(rel).to_string_lossy().into_owned()
}

/// `Path::starts_with`: whether the components of `base` begin `path`.
/// Components depend on the platform; the contract states that a path
/// starts with itself, and that of two paths from the root made of plain
/// names, one starts with the other exactly when its names begin with the
/// other's (whole components only: `/etc/passwd` starts with `/etc`, not
/// with `/e`).
#[verifier::external_body]
fn path_starts_with(path: &str, base: &str) -> (r: bool)
    ensures
        path@ == base@ ==> r,
        forall|a: Seq<Seq<char>>, c: Seq<Seq<char>>|
            #![trigger rooted(a), rooted(c)]
            plain_names(a) && plain_names(c) && base@ == rooted(a) && path@ == rooted(c) ==> (r
                <==> a.is_prefix_of(c)),
{
    std::path::Path::new(path).starts_with(base)
}

/// `Path::eq`: whether two paths have the same components. Components
/// depend on the platform; the contract states that equal texts are equal
/// paths, and that two paths from the root made of plain names are equal
/// exactly when their names are.
#[verifier::external_body]
fn path_eq(a: &str, b: &str) -> (r: bool)
    ensures
        a@ == b@ ==> r,
        forall|x: Seq<Seq<char>>, y: Seq<Seq<char>>|
            #![trigger rooted(x), rooted(y)]
            plain_names(x) && plain_names(y) && a@ == rooted(x) && b@ == rooted(y) ==> (r <==> x
                == y),
{
    std::path::Path::new(a) == std::path::Path::new(b)
}

/// `Path::parent`, as text. Components depend on the platform; the
/// contract states what the documentation shows on every platform: a path
/// from the root made of plain names has the path of all but its last name
/// as parent (`/foo/bar` has `/foo`, `/foo` has `/`).
#[verifier::external_body]
fn path_parent(path: &str) -> (res: Option<String>)
    ensures
        forall|a: Seq<Seq<char>>, n: Seq<char>|
            #![trigger rooted(a.push(n))]
            plain_names(a) && is_plain_name(n) && path@ == rooted(a.push(n)) ==> opt_view(res)
                == Some(rooted(a)),
{
    std::path::Path::new(path).parent().map(|p| p.to_string_lossy().into_owned())
}

/// Names compared one by one, each as text (`text_less`); names that begin
/// longer names come before them.
pub open spec fn names_less(x: Seq<Seq<char>>, y: Seq<Seq<char>>) -> bool
    decreases x.len(),
{
    if y.len() == 0 {
        false
    } else if x.len() == 0 {
        true
    } else if x[0] != y[0] {
        text_less(x[0], y[0])
    } else {
        names_less(x.drop_first(), y.drop_first())
    }
}

/// Of any two paths from the root made of plain names, the earlier one's
/// names do not come after the later one's.
pub open spec fn in_name_order(ps: Seq<Seq<char>>) -> bool {
    forall|i: int, j: int, x: Seq<Seq<char>>, y: Seq<Seq<char>>|
        #![trigger ps[i], ps[j], rooted(x), rooted(y)]
        0 <= i < j < ps.len() && plain_names(x) && plain_names(y) && ps[i] == rooted(x) && ps[j]
            == rooted(y) ==> !names_less(y, x)
}

/// `Vec::sort` on the paths, by `PathBuf`'s order: the same paths come
/// back, each as often as it was given, in the order of their components.
/// Where components end depends on the platform; for paths from the root
/// made of plain names the components are the root and the names on every
/// platform, and each name compares as its text, so such paths come in the
/// order of their names.
#[verifier::external_body]
pub(crate) fn sort_paths(paths: Vec<String>) -> (res: Vec<String>)
    ensures
        views(res@).to_multiset() == views(paths@).to_multiset(),
        in_name_order(views(res@)),
{
    let mut v: Vec<std::path::PathBuf> = paths.into_iter().map(std::path::PathBuf::from).collect();
    v.sort();
    v.into_iter().map(|p| p.to_string_lossy().into_owned()).collect()
}

/// A stripped path as shown: backslashes become slashes, and "." becomes
/// the empty text.
pub open spec fn render_relative(stripped: Seq<char>) -> Seq<char> {
    let r = stripped.map_values(|c: char| if c == '\\' { '/' } else { c });
    if r == "."@ {
        Seq::empty()
    } else {
        r
    }
}

/// How a path is shown: relative to the root where it lies under it, else
/// as it is.
pub open spec fn relative_text(stripped: Option<Seq<char>>, path: Seq<char>) -> Seq<char> {
    match stripped {
        Some(r) => render_relative(r),
        None => path,
    }
}

/// Shows a path, given what stripping the root from it gave.
pub fn render_relative_display(stripped: Option<String>, path: &str) -> (res: String)
    ensures
        res@ == relative_text(opt_view(stripped), path@),
{
    match stripped {
        Some(r) => {
            let v = chars_of(r.as_str());
            let mut out: Vec<char> = Vec::new();
            let mut i: usize = 0;
            while i < v.len()
                invariant
                    i <= v@.len(),
                    out@.len() == i,
                    forall|j: int|
                        0 <= j < i ==> out@[j] == (if (#[trigger] v@[j]) == '\\' {
                            '/'
                        } else {
                            v@[j]
                        }),
                decreases v@.len() - i,
            {
                let c = v[i];
                out.push(if c == '\\' { '/' } else { c });
                i = i + 1;
            }
            proof {
                assert(out@ == v@.map_values(|c: char| if c == '\\' { '/' } else { c }));
            }
            let dot = chars_of(".");
            if chars_equal(out.as_slice(), dot.as_slice()) {
                String::new()
            } else {
                string_from_chars(out.as_slice())
            }
        },
        None => String::from_str(path),
    }
}

/// `shown` is how `path` is shown under `root`: some rendering of what
/// stripping the root left, or the path itself; the empty text for the root;
/// for a path from the root made of plain names under a root made of its
/// first names, the remaining names joined by '/'; and for such a path whose
/// names do not begin with the root's, the path itself.
#[verifier::opaque]
pub open spec fn shows_path(root: Seq<char>, path: Seq<char>, shown: Seq<char>) -> bool {
    &&& exists|stripped: Option<Seq<char>>| shown == relative_text(stripped, path)
    &&& path == root ==> shown.len() == 0
    &&& forall|a: Seq<Seq<char>>, b: Seq<Seq<char>>|
        #![trigger rooted(a), joined(b)]
        plain_names(a) && plain_names(b) && b.len() > 0 && root == rooted(a) && path == rooted(
            a + b,
        ) ==> shown == joined(b)
    &&& forall|a: Seq<Seq<char>>, c: Seq<Seq<char>>|
        #![trigger rooted(a), rooted(c)]
        plain_names(a) && plain_names(c) && root == rooted(a) && path == rooted(c)
            && !a.is_prefix_of(c) ==> shown == path
}

proof fn lemma_joined_plain(b: Seq<Seq<char>>)
    requires
        plain_names(b),
        b.len() > 0,
    ensures
        joined(b).len() > 0,
        forall|i: int| 0 <= i < joined(b).len() ==> joined(b)[i] != '\\',
        b.len() > 1 ==> joined(b).len() >= 3,
    decreases b.len(),
{
    if b.len() == 1 {
        assert(is_plain_name(b[0]));
    } else {
        let t = b.drop_last();
        assert(plain_names(t)) by {
            assert forall|i: int| 0 <= i < t.len() implies is_plain_name(#[trigger] t[i]) by {
                assert(t[i] == b[i]);
            }
        }
        lemma_joined_plain(t);
        assert(is_plain_name(b[b.len() - 1]));
        let j = joined(b);
        let l = b.last();
        assert(j == joined(t) + seq!['/'] + l);
        assert forall|i: int| 0 <= i < j.len() implies j[i] != '\\' by {
            if i < joined(t).len() {
                assert(j[i] == joined(t)[i]);
            } else if i == joined(t).len() {
            } else {
                assert(j[i] == l[i - joined(t).len() - 1]);
            }
        }
    }
}

proof fn lemma_render_joined(b: Seq<Seq<char>>)
    requires
        plain_names(b),
        b.len() > 0,
    ensures
        render_relative(joined(b)) == joined(b),
{
    lemma_joined_plain(b);
    let j = joined(b);
    let m = j.map_values(|c: char| if c == '\\' { '/' } else { c });
    assert(m == j);
    reveal_strlit(".");
    if b.len() == 1 {
        assert(is_plain_name(b[0]));
        assert("."@ == seq!['.']);
    } else {
        assert("."@.len() == 1);
    }
}

/// Shows `path` relative to `root_dir` where it lies under it, with
/// forward slashes, and the root itself as the empty text; a path outside
/// the root is shown as it is.
pub fn relative_display(root_dir: &str, path: &str) -> (res: String)
    ensures
        shows_path(root_dir@, path@, res@),
{
    let stripped = strip_path_prefix(path, root_dir);
    proof {
        reveal_strlit(".");
        reveal(shows_path);
        assert forall|a: Seq<Seq<char>>, b: Seq<Seq<char>>|
            #![trigger rooted(a), joined(b)]
            plain_names(a) && plain_names(b) && b.len() > 0 && root_dir@ == rooted(a) && path@
                == rooted(a + b) implies relative_text(opt_view(stripped), path@) == joined(b) by {
            lemma_render_joined(b);
        }
    }
    render_relative_display(stripped, path)
}

/// Showing a path under the root and joining what is shown back onto the
/// root gives the path again, for a path from the root of plain names under
/// a root made of its first names, where the remaining names are not blank
/// or "." once trimmed and the first of them holds no ':'. What is shown is
/// the remaining names joined by '/', a request that `resolve_candidate`
/// answers by `joined_onto` those names: the path itself, or on Windows the
/// same names with its separator.
pub proof fn lemma_shown_path_joins_back(a: Seq<Seq<char>>, b: Seq<Seq<char>>, shown: Seq<char>)
    requires
        plain_names(a),
        plain_names(b),
        b.len() > 0,
        no_drive(b),
        !names_root(joined(b)),
        shows_path(rooted(a), rooted(a + b), shown),
    ensures
        shown == joined(b),
        !names_root(shown),
{
    reveal(shows_path);
    assert(rooted(a) == rooted(a) && joined(b) == joined(b));
}

/// A request names the root when it is blank or "." once trimmed.
pub open spec fn names_root(requested: Seq<char>) -> bool {
    trim(requested).len() == 0 || trim(requested) == "."@
}

/// The path a request asks for, given whether it is absolute and what
/// joining it onto the root gives: the root for a blank or "." request, an
/// error for an absolute one, else the joined path.
pub fn candidate_from(root_dir: &str, requested: &str, absolute: bool, joined_path: String) -> (res:
    Result<String, ApiError>)
    ensures
        names_root(requested@) ==> (res matches Ok(c) && c@ == root_dir@),
        !names_root(requested@) && absolute ==> (res matches Err(e) && is_error(
            e,
            ApiStatus::BadRequest,
            "absolute paths are not allowed"@,
        )),
        !names_root(requested@) && !absolute ==> (res matches Ok(c) && c@ == joined_path@),
{
    let r = chars_of(requested);
    let t = trim_chars(r.as_slice());
    let dot = chars_of(".");
    if t.len() == 0 || chars_equal(t.as_slice(), dot.as_slice()) {
        return Ok(String::from_str(root_dir));
    }
    if absolute {
        return Err(ApiError::bad_request("absolute paths are not allowed"));
    }
    Ok(joined_path)
}

/// The path a request asks for, before it is looked up on disk: the root
/// for a blank or "." request, an error for an absolute path, else the
/// request joined onto the root (`Path::is_absolute` and `Path::join`
/// decide by the platform; plain names joined by '/' are never absolute, and
/// join onto a root of plain names as `joined_onto` says).
pub fn resolve_candidate(root_dir: &str, requested: &str) -> (res: Result<String, ApiError>)
    ensures
        names_root(requested@) ==> (res matches Ok(c) && c@ == root_dir@),
        res matches Err(e) ==> !names_root(requested@) && is_error(
            e,
            ApiStatus::BadRequest,
            "absolute paths are not allowed"@,
        ),
        forall|b: Seq<Seq<char>>|
            #![trigger joined(b)]
            plain_names(b) && b.len() > 0 && no_drive(b) && requested@ == joined(b) ==> res is Ok,
        forall|a: Seq<Seq<char>>, b: Seq<Seq<char>>|
            #![trigger rooted(a), joined(b)]
            plain_names(a) && plain_names(b) && b.len() > 0 && no_drive(b) && root_dir@ == rooted(
                a,
            ) && requested@ == joined(b) && !names_root(requested@) ==> (res matches Ok(c)
                && joined_onto(a, b, c@)),
{
    let absolute = path_is_absolute(requested);
    let joined_path = path_join(root_dir, requested);
    candidate_from(root_dir, requested, absolute, joined_path)
}

/// A found path as the answer: the path where it lies under the root, else
/// the refusal.
pub fn within_root_outcome(c: String, within: bool) -> (res: Result<String, ApiError>)
    ensures
        within ==> (res matches Ok(p) && p@ == c@),
        !within ==> (res matches Err(e) && is_error(
            e,
            ApiStatus::BadRequest,
            "requested path escapes the working directory root"@,
        )),
{
    if within {
        Ok(c)
    } else {
        Err(ApiError::bad_request("requested path escapes the working directory root"))
    }
}

/// Checks a looked-up path: it must exist (`canonical` is what the lookup
/// gave) and lie under the root, by whole components (`Path::starts_with`):
/// a path from the root made of plain names passes exactly when the root's
/// names begin its names.
pub fn check_within_root(root_dir: &str, canonical: Option<String>) -> (res: Result<
    String,
    ApiError,
>)
    ensures
        canonical is None ==> (res matches Err(e) && is_error(
            e,
            ApiStatus::BadRequest,
            "requested path does not exist"@,
        )),
        canonical matches Some(c) ==> match res {
            Ok(p) => p@ == c@,
            Err(e) => is_error(
                e,
                ApiStatus::BadRequest,
                "requested path escapes the working directory root"@,
            ) && c@ != root_dir@,
        },
        canonical matches Some(c) ==> forall|a: Seq<Seq<char>>, x: Seq<Seq<char>>|
            #![trigger rooted(a), rooted(x)]
            plain_names(a) && plain_names(x) && root_dir@ == rooted(a) && c@ == rooted(x) ==> (
            res is Ok <==> a.is_prefix_of(x)),
{
    match canonical {
        None => Err(ApiError::bad_request("requested path does not exist")),
        Some(c) => {
            let within = path_starts_with(c.as_str(), root_dir);
            within_root_outcome(c, within)
        },
    }
}

/// The parent of a directory as shown, given whether the directory is the
/// root and what its parent is: none for the root, else the parent, if
/// any, shown relative to the root.
pub fn parent_from(root_dir: &str, is_root: bool, parent: Option<String>) -> (res: Option<String>)
    ensures
        is_root ==> res is None,
        !is_root ==> (res is None <==> parent is None),
        !is_root ==> (parent matches Some(p) ==> (res matches Some(r) && shows_path(
            root_dir@,
            p@,
            r@,
        ))),
{
    if is_root {
        None
    } else {
        match parent {
            Some(p) => Some(relative_display(root_dir, p.as_str())),
            None => None,
        }
    }
}

/// The parent of `dir` as shown, or none for the root itself. Whether `dir`
/// is the root as a path, and what its parent is, `Path::eq` and
/// `Path::parent` decide by the platform's separators: the contract states
/// that the root has none, that a parent is shown as `relative_display`
/// shows paths, and that a directory from the root made of plain names
/// under a root made of its first names has the names between as parent.
pub fn parent_display(root_dir: &str, dir: &str) -> (res: Option<String>)
    ensures
        dir@ == root_dir@ ==> res is None,
        res matches Some(r) ==> exists|parent: Seq<char>| shows_path(root_dir@, parent, r@),
        forall|a: Seq<Seq<char>>, b: Seq<Seq<char>>|
            #![trigger rooted(a), rooted(a + b)]
            plain_names(a) && plain_names(b) && b.len() > 0 && root_dir@ == rooted(a) && dir@
                == rooted(a + b) ==> (res matches Some(r) && r@ == joined(b.drop_last())),
{
    let is_root = path_eq(dir, root_dir);
    let parent = path_parent(dir);
    let res = parent_from(root_dir, is_root, parent);
    proof {
        assert forall|a: Seq<Seq<char>>, b: Seq<Seq<char>>|
            #![trigger rooted(a), rooted(a + b)]
            plain_names(a) && plain_names(b) && b.len() > 0 && root_dir@ == rooted(a) && dir@
                == rooted(a + b) implies (res matches Some(r) && r@ == joined(b.drop_last())) by {
            lemma_plain_split(a, b);
            let front = a + b.drop_last();
            assert(rooted(a + b) == rooted(a + b));
            assert(!is_root);
            assert(rooted(front.push(b.last())) == dir@);
            lemma_parent_shown(root_dir@, opt_view(parent), opt_view(res), a, b);
        }
    }
    res
}

/// A parent shown under the root, where the directory is a path from the
/// root made of plain names under a root made of its first names.
proof fn lemma_parent_shown(
    root: Seq<char>,
    parent: Option<Seq<char>>,
    res: Option<Seq<char>>,
    a: Seq<Seq<char>>,
    b: Seq<Seq<char>>,
)
    requires
        plain_names(a),
        plain_names(b),
        b.len() > 0,
        root == rooted(a),
        parent == Some(rooted(a + b.drop_last())),
        res matches Some(r) && shows_path(root, parent->0, r),
    ensures
        res == Some(joined(b.drop_last())),
{
    reveal(shows_path);
    lemma_plain_split(a, b);
    let bd = b.drop_last();
    if bd.len() > 0 {
        assert(rooted(a) == root && joined(bd) == joined(bd));
    }
}

/// The facts about splitting off the last of some plain names that the
/// parent of a path needs.
proof fn lemma_plain_split(a: Seq<Seq<char>>, b: Seq<Seq<char>>)
    requires
        plain_names(a),
        plain_names(b),
        b.len() > 0,
    ensures
        plain_names(a + b),
        plain_names(a + b.drop_last()),
        is_plain_name(b.last()),
        a + b == (a + b.drop_last()).push(b.last()),
        a + b != a,
        b.drop_last().len() == 0 ==> a + b.drop_last() == a && joined(b.drop_last())
            == Seq::<char>::empty(),
        b.drop_last().len() > 0 ==> plain_names(b.drop_last()),
{
    let ab = a + b;
    let front = a + b.drop_last();
    assert(ab == front.push(b.last()));
    assert forall|i: int| 0 <= i < ab.len() implies is_plain_name(#[trigger] ab[i]) by {
        if i < a.len() {
            assert(ab[i] == a[i]);
        } else {
            assert(ab[i] == b[i - a.len()]);
        }
    }
    assert forall|i: int| 0 <= i < front.len() implies is_plain_name(#[trigger] front[i]) by {
        assert(front[i] == ab[i]);
    }
    assert(b.last() == b[b.len() - 1]);
    assert(ab.len() != a.len());
    let bd = b.drop_last();
    if bd.len() == 0 {
        assert(front == a);
    } else {
        assert forall|i: int| 0 <= i < bd.len() implies is_plain_name(#[trigger] bd[i]) by {
            assert(bd[i] == b[i]);
        }
    }
}

} // verus!
