//! The data handed to the page templates: the frame shared by every page
//! (who is signed in, where we are, what may be seen) and the content of the
//! administration and folder pages.

use vstd::prelude::*;
use crate::logins::{is_admin_in, Login, Logins};
use crate::paths::{join_segments, join_with_slash, law_sorted_same_paths_equal, path_view, paths_view, same_paths, sorted_unique, strictly_sorted};

verus! {

/// The administration page: every user in force with whether they
/// administer the site.
pub struct Admin {
    pub users: Vec<(String, bool)>,
}

/// The frame of every page.
pub struct Base<T> {
    /// The signed-in user, if any.
    pub user: Option<String>,
    /// Whether the signed-in user is an administrator.
    pub is_admin: bool,
    /// The page's own content.
    pub page: T,
    /// The requested path: its URL segments joined by `/`.
    pub current: String,
    /// The paths of the notes the user may see, sorted and without repeats.
    pub accessible: Vec<String>,
}

/// A folder page: for each accessible note below the requested path, the
/// rest of its path after the requested path, and its whole path.
pub struct Dir {
    pub children: Vec<(String, String)>,
}

/// The views of the `(name, admin)` rows of the administration page.
pub open spec fn users_view(users: Seq<(String, bool)>) -> Seq<(Seq<char>, bool)> {
    users.map_values(|u: (String, bool)| (u.0@, u.1))
}

/// The views of the `(rest, whole)` rows of a folder page.
pub open spec fn children_view(children: Seq<(String, String)>) -> Seq<(Seq<char>, Seq<char>)> {
    children.map_values(|c: (String, String)| (c.0@, c.1@))
}

/// The texts of a list of strings.
pub open spec fn texts_view(v: Seq<String>) -> Seq<Seq<char>> {
    v.map_values(|s: String| s@)
}

/// The rows of a folder page for the requested path `current`: each
/// accessible path that starts with `current`, in order, with the rest of
/// it after `current`.
pub open spec fn dir_children(current: Seq<char>, accessible: Seq<Seq<char>>) -> Seq<(Seq<char>, Seq<char>)>
    decreases accessible.len(),
{
    if accessible.len() == 0 {
        Seq::empty()
    } else {
        let rest = dir_children(current, accessible.drop_last());
        let x = accessible.last();
        if current.is_prefix_of(x) {
            rest.push((x.subrange(current.len() as int, x.len() as int), x))
        } else {
            rest
        }
    }
}

/// The notes listed on a page do not depend on the order in which the
/// user's rules found them, nor on repeats: where two searches found the
/// same paths, the sorted listings (as `Base::from_parts` makes them) are
/// the same.
pub proof fn law_listing_ignores_order(
    found1: Seq<Seq<Seq<char>>>,
    found2: Seq<Seq<Seq<char>>>,
    sorted1: Seq<Seq<Seq<char>>>,
    sorted2: Seq<Seq<Seq<char>>>,
)
    requires
        same_paths(found1, found2),
        strictly_sorted(sorted1),
        same_paths(sorted1, found1),
        strictly_sorted(sorted2),
        same_paths(sorted2, found2),
    ensures
        sorted1 == sorted2,
        sorted1.map_values(|p: Seq<Seq<char>>| join_with_slash(p)) == sorted2.map_values(
            |p: Seq<Seq<char>>| join_with_slash(p),
        ),
{
    assert forall|i: int| 0 <= i < sorted1.len() implies #[trigger] sorted2.contains(sorted1[i]) by {
        assert(found1.contains(sorted1[i]));
        let j = choose|j: int| 0 <= j < found1.len() && found1[j] == sorted1[i];
        assert(found2.contains(found1[j]));
        let k = choose|k: int| 0 <= k < found2.len() && found2[k] == found1[j];
        assert(sorted2.contains(found2[k]));
    }
    assert forall|i: int| 0 <= i < sorted2.len() implies #[trigger] sorted1.contains(sorted2[i]) by {
        assert(found2.contains(sorted2[i]));
        let j = choose|j: int| 0 <= j < found2.len() && found2[j] == sorted2[i];
        assert(found1.contains(found2[j]));
        let k = choose|k: int| 0 <= k < found1.len() && found1[k] == found2[j];
        assert(sorted1.contains(found1[k]));
    }
    law_sorted_same_paths_equal(sorted1, sorted2);
}

/// A folder page lists exactly the accessible paths below the requested
/// path: every accessible path that starts with the requested path is a row,
/// with the rest of it after the requested path, and every row is such an
/// accessible path. (Below the root, the empty path, every path is a row.)
pub proof fn law_dir_children(current: Seq<char>, accessible: Seq<Seq<char>>)
    ensures
        forall|x: Seq<char>|
            #[trigger] accessible.contains(x) && current.is_prefix_of(x) ==> dir_children(current, accessible).contains(
                (x.subrange(current.len() as int, x.len() as int), x),
            ),
        forall|k: int|
            0 <= k < dir_children(current, accessible).len() ==> {
                let row = #[trigger] dir_children(current, accessible)[k];
                &&& accessible.contains(row.1)
                &&& current.is_prefix_of(row.1)
                &&& row.0 == row.1.subrange(current.len() as int, row.1.len() as int)
            },
    decreases accessible.len(),
{
    if accessible.len() > 0 {
        let prev = accessible.drop_last();
        law_dir_children(current, prev);
        let rest = dir_children(current, prev);
        let x = accessible.last();
        let rows = dir_children(current, accessible);
        assert forall|y: Seq<char>|
            #[trigger] accessible.contains(y) && current.is_prefix_of(y) implies rows.contains(
                (y.subrange(current.len() as int, y.len() as int), y),
            ) by {
            let j = choose|j: int| 0 <= j < accessible.len() && accessible[j] == y;
            let row = (y.subrange(current.len() as int, y.len() as int), y);
            if j < accessible.len() - 1 {
                assert(prev[j] == y);
                assert(prev.contains(y));
                let m = choose|m: int| 0 <= m < rest.len() && rest[m] == row;
                if current.is_prefix_of(x) {
                    assert(rows[m] == row);
                } else {
                    assert(rows[m] == row);
                }
            } else {
                assert(rows[rows.len() - 1] == row);
            }
        }
        assert forall|k: int| 0 <= k < rows.len() implies {
            let row = #[trigger] rows[k];
            &&& accessible.contains(row.1)
            &&& current.is_prefix_of(row.1)
            &&& row.0 == row.1.subrange(current.len() as int, row.1.len() as int)
        } by {
            if k < rest.len() {
                assert(rows[k] == rest[k]);
                let row = rest[k];
                let j = choose|j: int| 0 <= j < prev.len() && prev[j] == row.1;
                assert(accessible[j] == row.1);
            } else {
                assert(accessible[accessible.len() - 1] == x);
            }
        }
    }
}

/// Whether the text `prefix` begins the text `x`.
fn text_starts_with(x: &str, prefix: &str) -> (r: bool)
    ensures
        r == prefix@.is_prefix_of(x@),
{
    let lx = x.unicode_len();
    let lp = prefix.unicode_len();
    if lp > lx {
        return false;
    }
    let mut i: usize = 0;
    while i < lp
        invariant
            lx == x@.len(),
            lp == prefix@.len(),
            lp <= lx,
            i <= lp,
            forall|j: int| 0 <= j < i ==> prefix@[j] == x@[j],
        decreases lp - i,
    {
        if x.get_char(i) != prefix.get_char(i) {
            return false;
        }
        i = i + 1;
    }
    true
}

impl Admin {
    /// The administration page for the logins in force: each user's name
    /// and administrator flag, in the order given.
    pub fn from_logins(logins: Vec<Login>) -> (r: Admin)
        ensures
            users_view(r.users@) == logins@.map_values(|l: Login| (l.name@, l.admin)),
    {
        let mut users: Vec<(String, bool)> = Vec::new();
        let n = logins.len();
        for i in 0..n
            invariant
                n == logins@.len(),
                users@.len() == i,
                forall|k: int| 0 <= k < i ==> (#[trigger] users@[k]).0@ == logins@[k].name@ && users@[k].1 == logins@[k].admin,
        {
            users.push((logins[i].name.clone(), logins[i].admin));
        }
        proof {
            assert(users_view(users@) =~= logins@.map_values(|l: Login| (l.name@, l.admin)));
        }
        Admin { users }
    }
}

impl<T> Base<T> {
    /// The frame of a page: the signed-in `user`, whose administrator flag
    /// is read from `logins`; the requested path from its URL `segments`;
    /// and the notes the user may see, from the paths (as components) that
    /// the user's access rules found, or none where the rules could not be
    /// read.
    pub fn from_parts(
        user: Option<String>,
        logins: &Logins,
        page: T,
        segments: &Vec<String>,
        found: Option<Vec<Vec<String>>>,
    ) -> (r: Base<T>)
        ensures
            r.user == user,
            r.is_admin == (user matches Some(u) && is_admin_in(logins@, u@)),
            r.page == page,
            r.current@ == join_with_slash(path_view(*segments)),
            found is None ==> r.accessible@.len() == 0,
            found matches Some(paths) ==> exists|sorted: Seq<Seq<Seq<char>>>| {
                &&& strictly_sorted(sorted)
                &&& same_paths(sorted, paths_view(paths@))
                &&& texts_view(r.accessible@) == sorted.map_values(|p: Seq<Seq<char>>| join_with_slash(p))
            },
    {
        let is_admin = match &user {
            Some(u) => logins.is_admin(u.as_str()),
            None => false,
        };
        let current = join_segments(segments);
        let accessible = match found {
            None => Vec::new(),
            Some(paths) => {
                let sorted = sorted_unique(paths);
                let mut listed: Vec<String> = Vec::new();
                let n = sorted.len();
                for i in 0..n
                    invariant
                        n == sorted@.len(),
                        listed@.len() == i,
                        forall|k: int| 0 <= k < i ==> #[trigger] listed@[k]@ == join_with_slash(path_view(sorted@[k])),
                {
                    listed.push(join_segments(&sorted[i]));
                }
                proof {
                    let sv = paths_view(sorted@);
                    assert(texts_view(listed@) =~= sv.map_values(|p: Seq<Seq<char>>| join_with_slash(p)));
                }
                listed
            },
        };
        Base { user, is_admin, page, current, accessible }
    }
}

impl Dir {
    /// The folder page within `base`: the accessible paths that start with
    /// the requested path, each with the rest of it after the requested path.
    pub fn from_base(base: Base<Dir>) -> (r: Base<Dir>)
        ensures
            r.user == base.user,
            r.is_admin == base.is_admin,
            r.current == base.current,
            r.accessible == base.accessible,
            children_view(r.page.children@) == dir_children(base.current@, texts_view(base.accessible@)),
    {
        let ghost acc = texts_view(base.accessible@);
        let mut children: Vec<(String, String)> = Vec::new();
        let n = base.accessible.len();
        let cur_len = base.current.as_str().unicode_len();
        for i in 0..n
            invariant
                n == acc.len(),
                acc == texts_view(base.accessible@),
                cur_len == base.current@.len(),
                children_view(children@) == dir_children(base.current@, acc.take(i as int)),
        {
            let x = base.accessible[i].as_str();
            proof {
                assert(acc.take(i + 1).drop_last() =~= acc.take(i as int));
                assert(acc.take(i + 1).last() == x@);
            }
            if text_starts_with(x, base.current.as_str()) {
                let len = x.unicode_len();
                let rest = x.substring_char(cur_len, len);
                let ghost before = children_view(children@);
                children.push((rest.to_owned(), base.accessible[i].clone()));
                proof {
                    assert(children_view(children@) =~= before.push((x@.subrange(cur_len as int, len as int), x@)));
                }
            }
        }
        proof {
            assert(acc.take(n as int) =~= acc);
        }
        Base {
            user: base.user,
            is_admin: base.is_admin,
            page: Dir { children },
            current: base.current,
            accessible: base.accessible,
        }
    }
}

} // verus!
