use vstd::prelude::*;

use crate::fs::Listing;
use crate::paths::{join_path, parent_path, path_join, path_parent};

verus! {

/// The explorer's tabs.
#[derive(Clone, Copy, Debug, PartialEq, Eq, Structural)]
pub enum ExplorerTab {
    Filesystem,
    Dataframe,
    Rosbag,
}

/// A file the user picked, waiting for its load options to be confirmed.
#[derive(Clone, Debug)]
pub struct ModalWindowInput {
    pub filepath: String,
}

/// One entry of a listing with its check box.
#[derive(Clone, Debug)]
pub struct CheckEntry {
    pub name: String,
    pub checked: bool,
}

pub open spec fn entry_view(e: CheckEntry) -> (Seq<char>, bool) {
    (e.name@, e.checked)
}

pub open spec fn has_key(es: Seq<(Seq<char>, bool)>, name: Seq<char>) -> bool {
    exists|i: int| 0 <= i < es.len() && (#[trigger] es[i]).0 == name
}

/// Check boxes have distinct names.
pub open spec fn keys_unique(es: Seq<(Seq<char>, bool)>) -> bool {
    forall|i: int, j: int| 0 <= i < j < es.len() ==> (#[trigger] es[i]).0 != (#[trigger] es[j]).0
}

/// The check boxes after adding an unchecked box for `name`, unless one
/// exists already.
pub open spec fn add_unchecked(es: Seq<(Seq<char>, bool)>, name: Seq<char>) -> Seq<(Seq<char>, bool)> {
    if has_key(es, name) {
        es
    } else {
        es.push((name, false))
    }
}

/// The check boxes after adding unchecked boxes for `names`, in order.
pub open spec fn fill_spec(es: Seq<(Seq<char>, bool)>, names: Seq<Seq<char>>) -> Seq<(Seq<char>, bool)>
    decreases names.len(),
{
    if names.len() == 0 {
        es
    } else {
        add_unchecked(fill_spec(es, names.drop_last()), names.last())
    }
}

pub open spec fn names_view(v: Seq<String>) -> Seq<Seq<char>> {
    v.map_values(|s: String| s@)
}

/// Whether the box of `name` is checked; a missing box is not.
pub open spec fn checked_in(es: Seq<(Seq<char>, bool)>, name: Seq<char>) -> bool {
    exists|i: int| 0 <= i < es.len() && (#[trigger] es[i]).0 == name && es[i].1
}

/// The directories whose boxes are checked, in listing order.
pub open spec fn checked_dirs(es: Seq<(Seq<char>, bool)>, dirs: Seq<Seq<char>>) -> Seq<Seq<char>>
    decreases dirs.len(),
{
    if dirs.len() == 0 {
        Seq::empty()
    } else {
        let rest = checked_dirs(es, dirs.drop_last());
        if checked_in(es, dirs.last()) {
            rest.push(dirs.last())
        } else {
            rest
        }
    }
}

/// The explorer panel's state: the open tab and the check boxes of the
/// listing on show.
#[derive(Clone, Debug)]
pub struct Explorer {
    explorer_tab: ExplorerTab,
    checked_map: Vec<CheckEntry>,
}

impl Explorer {
    /// The check boxes, as names and states.
    pub closed spec fn boxes(&self) -> Seq<(Seq<char>, bool)> {
        self.checked_map@.map_values(|e: CheckEntry| entry_view(e))
    }

    pub closed spec fn tab_view(&self) -> ExplorerTab {
        self.explorer_tab
    }
}

impl Default for Explorer {
    /// The filesystem tab, with no check box.
    fn default() -> (r: Explorer)
        ensures
            r.tab_view() == ExplorerTab::Filesystem,
            r.boxes().len() == 0,
    {
        let r = Explorer { explorer_tab: ExplorerTab::Filesystem, checked_map: Vec::new() };
        proof {
            assert(r.boxes() =~= Seq::<(Seq<char>, bool)>::empty());
        }
        r
    }
}

impl Explorer {
    /// The open tab.
    pub fn tab(&self) -> (r: ExplorerTab)
        ensures
            r == self.tab_view(),
    {
        self.explorer_tab
    }

    /// Opens `tab`.
    pub fn select_tab(&mut self, tab: ExplorerTab)
        ensures
            final(self).tab_view() == tab,
            final(self).boxes() == old(self).boxes(),
    {
        self.explorer_tab = tab;
    }

    fn position(&self, name: &String) -> (r: Option<usize>)
        ensures
            r matches Some(i) ==> i < self.boxes().len() && self.boxes()[i as int].0 == name@,
            r is None ==> !has_key(self.boxes(), name@),
    {
        let n = self.checked_map.len();
        let mut i: usize = 0;
        while i < n
            invariant
                n == self.boxes().len(),
                i <= n,
                forall|j: int| 0 <= j < i ==> (#[trigger] self.boxes()[j]).0 != name@,
            decreases n - i,
        {
            if self.checked_map[i].name == *name {
                return Some(i);
            }
            i = i + 1;
        }
        None
    }

    fn add_all(&mut self, names: &Vec<String>)
        requires
            keys_unique(old(self).boxes()),
        ensures
            keys_unique(final(self).boxes()),
            final(self).boxes() == fill_spec(old(self).boxes(), names_view(names@)),
            final(self).tab_view() == old(self).tab_view(),
    {
        let n = names.len();
        let mut i: usize = 0;
        while i < n
            invariant
                n == names@.len(),
                i <= n,
                keys_unique(self.boxes()),
                self.boxes() == fill_spec(old(self).boxes(), names_view(names@.subrange(0, i as int))),
                self.tab_view() == old(self).tab_view(),
            decreases n - i,
        {
            proof {
                assert(names_view(names@.subrange(0, i + 1)).drop_last() =~= names_view(
                    names@.subrange(0, i as int),
                ));
            }
            let ghost before = self.boxes();
            if self.position(&names[i]).is_none() {
                self.checked_map.push(CheckEntry { name: names[i].clone(), checked: false });
                proof {
                    assert(self.boxes() =~= before.push((names@[i as int]@, false)));
                }
            }
            i = i + 1;
        }
        proof {
            assert(names@.subrange(0, n as int) =~= names@);
        }
    }

    /// Brings the check boxes in line with the listing on show: while no
    /// listing is ready they are cleared; a ready listing fills an empty set
    /// with an unchecked box per directory, then per file. Boxes that exist
    /// already keep their state.
    pub fn sync_with_listing(&mut self, listing: Option<&Listing>)
        requires
            keys_unique(old(self).boxes()),
        ensures
            keys_unique(final(self).boxes()),
            final(self).tab_view() == old(self).tab_view(),
            listing is None ==> final(self).boxes().len() == 0,
            listing matches Some(l) ==> (old(self).boxes().len() == 0 ==> final(self).boxes() == fill_spec(
                Seq::empty(),
                names_view(l.directories@) + names_view(l.files@),
            )) && (old(self).boxes().len() > 0 ==> final(self).boxes() == old(self).boxes()),
    {
        match listing {
            None => {
                self.checked_map.clear();
                proof {
                    assert(self.boxes() =~= Seq::<(Seq<char>, bool)>::empty());
                }
            },
            Some(l) => {
                if self.checked_map.len() == 0 {
                    proof {
                        assert(self.boxes() =~= Seq::<(Seq<char>, bool)>::empty());
                    }
                    self.add_all(&l.directories);
                    self.add_all(&l.files);
                    proof {
                        lemma_fill_concat(
                            Seq::empty(),
                            names_view(l.directories@),
                            names_view(l.files@),
                        );
                    }
                }
            },
        }
    }

    /// Sets the box of `name`. Returns whether such a box exists.
    pub fn set_checked(&mut self, name: &String, checked: bool) -> (r: bool)
        requires
            keys_unique(old(self).boxes()),
        ensures
            keys_unique(final(self).boxes()),
            final(self).tab_view() == old(self).tab_view(),
            r == has_key(old(self).boxes(), name@),
            r ==> exists|i: int|
                0 <= i < old(self).boxes().len() && (#[trigger] old(self).boxes()[i]).0 == name@
                    && final(self).boxes() == old(self).boxes().update(i, (name@, checked)),
            !r ==> final(self).boxes() == old(self).boxes(),
    {
        match self.position(name) {
            Some(i) => {
                let ghost before = self.boxes();
                self.checked_map[i].checked = checked;
                proof {
                    assert(self.boxes() =~= before.update(i as int, (name@, checked)));
                }
                true
            },
            None => false,
        }
    }

    /// Whether the box of `name` is checked.
    pub fn is_checked(&self, name: &String) -> (r: bool)
        requires
            keys_unique(self.boxes()),
        ensures
            r == checked_in(self.boxes(), name@),
    {
        match self.position(name) {
            Some(i) => {
                proof {
                    assert forall|j: int| 0 <= j < self.boxes().len() && (#[trigger] self.boxes()[j]).0 == name@ implies j == i by {
                        if j != i {
                            assert(self.boxes()[j].0 != self.boxes()[i as int].0);
                        }
                    }
                }
                self.checked_map[i].checked
            },
            None => false,
        }
    }

    /// The full path of the one checked directory of `listing` under
    /// `current`, or nothing when none or several are checked.
    pub fn selected_directory(&self, current: &String, listing: &Listing) -> (r: Option<String>)
        requires
            keys_unique(self.boxes()),
        ensures
            checked_dirs(self.boxes(), names_view(listing.directories@)).len() == 1 ==> (r matches Some(p)
                && p@ == path_join(current@, checked_dirs(self.boxes(), names_view(listing.directories@))[0])),
            checked_dirs(self.boxes(), names_view(listing.directories@)).len() != 1 ==> r is None,
    {
        let dirs = &listing.directories;
        let n = dirs.len();
        let mut count: usize = 0;
        let mut found: Option<usize> = None;
        let mut i: usize = 0;
        while i < n
            invariant
                n == dirs@.len(),
                i <= n,
                keys_unique(self.boxes()),
                count == checked_dirs(self.boxes(), names_view(dirs@.subrange(0, i as int))).len(),
                count <= i,
                count == 1 ==> (found matches Some(k) && k < n && dirs@[k as int]@ == checked_dirs(
                    self.boxes(),
                    names_view(dirs@.subrange(0, i as int)),
                )[0]),
            decreases n - i,
        {
            proof {
                assert(names_view(dirs@.subrange(0, i + 1)).drop_last() =~= names_view(
                    dirs@.subrange(0, i as int),
                ));
                assert(names_view(dirs@.subrange(0, i + 1)).last() == dirs@[i as int]@);
            }
            if self.is_checked(&dirs[i]) {
                if count == 0 {
                    found = Some(i);
                }
                count = count + 1;
            }
            i = i + 1;
        }
        proof {
            assert(dirs@.subrange(0, n as int) =~= dirs@);
        }
        if count == 1 {
            match found {
                Some(k) => Some(join_path(current.as_str(), dirs[k].as_str())),
                None => None,
            }
        } else {
            None
        }
    }

    /// The path one level up from `current`, where there is one.
    pub fn go_up(current: &String) -> (r: Option<String>)
        ensures
            match (r, path_parent(current@)) {
                (Some(s), Some(t)) => s@ == t,
                (None, None) => true,
                _ => false,
            },
    {
        parent_path(current.as_str())
    }

    /// The path of entry `name` inside `current`.
    pub fn enter(current: &String, name: &String) -> (r: String)
        ensures
            r@ == path_join(current@, name@),
    {
        join_path(current.as_str(), name.as_str())
    }

    /// The load request for file `name` inside `current`, to be confirmed
    /// by the user.
    pub fn open_file(current: &String, name: &String) -> (r: ModalWindowInput)
        ensures
            r.filepath@ == path_join(current@, name@),
    {
        ModalWindowInput { filepath: join_path(current.as_str(), name.as_str()) }
    }
}

/// Filling with two name lists one after the other is filling with their
/// concatenation.
pub proof fn lemma_fill_concat(es: Seq<(Seq<char>, bool)>, a: Seq<Seq<char>>, b: Seq<Seq<char>>)
    ensures
        fill_spec(fill_spec(es, a), b) == fill_spec(es, a + b),
    decreases b.len(),
{
    if b.len() == 0 {
        assert(a + b =~= a);
    } else {
        lemma_fill_concat(es, a, b.drop_last());
        assert((a + b).drop_last() =~= a + b.drop_last());
        assert((a + b).last() == b.last());
    }
}

/// `a` sorts strictly before `b`: the first differing character is smaller,
/// or `a` is a proper prefix of `b`. This is the order of `str`, since UTF-8
/// keeps the order of code points.
pub open spec fn text_lt(a: Seq<char>, b: Seq<char>) -> bool
    decreases a.len(),
{
    if a.len() == 0 {
        b.len() > 0
    } else if b.len() == 0 {
        false
    } else if a[0] != b[0] {
        a[0] < b[0]
    } else {
        text_lt(a.drop_first(), b.drop_first())
    }
}

/// Names in ascending order.
pub open spec fn text_sorted(s: Seq<Seq<char>>) -> bool {
    forall|i: int, j: int| 0 <= i < j < s.len() ==> !text_lt(#[trigger] s[j], #[trigger] s[i])
}

pub proof fn lemma_text_lt_asymmetric(a: Seq<char>, b: Seq<char>)
    ensures
        text_lt(a, b) ==> !text_lt(b, a),
    decreases a.len(),
{
    if a.len() > 0 && b.len() > 0 && a[0] == b[0] {
        lemma_text_lt_asymmetric(a.drop_first(), b.drop_first());
    }
}

pub proof fn lemma_text_lt_transitive(a: Seq<char>, b: Seq<char>, c: Seq<char>)
    ensures
        text_lt(a, b) && text_lt(b, c) ==> text_lt(a, c),
    decreases a.len(),
{
    if a.len() > 0 && b.len() > 0 && c.len() > 0 && a[0] == b[0] && b[0] == c[0] {
        lemma_text_lt_transitive(a.drop_first(), b.drop_first(), c.drop_first());
    }
}

fn text_less(a: &String, b: &String) -> (r: bool)
    ensures
        r == text_lt(a@, b@),
{
    let sa = a.as_str();
    let sb = b.as_str();
    let na = sa.unicode_len();
    let nb = sb.unicode_len();
    let mut i: usize = 0;
    proof {
        assert(a@.subrange(0, na as int) =~= a@);
        assert(b@.subrange(0, nb as int) =~= b@);
    }
    while i < na && i < nb
        invariant
            sa@ == a@,
            sb@ == b@,
            na == a@.len(),
            nb == b@.len(),
            i <= na,
            i <= nb,
            text_lt(a@, b@) == text_lt(a@.subrange(i as int, na as int), b@.subrange(i as int, nb as int)),
        decreases na - i,
    {
        let ca = sa.get_char(i);
        let cb = sb.get_char(i);
        proof {
            let x = a@.subrange(i as int, na as int);
            let y = b@.subrange(i as int, nb as int);
            assert(x[0] == ca && y[0] == cb);
            assert(x.drop_first() =~= a@.subrange(i + 1, na as int));
            assert(y.drop_first() =~= b@.subrange(i + 1, nb as int));
        }
        if ca != cb {
            return ca < cb;
        }
        i = i + 1;
    }
    proof {
        let x = a@.subrange(i as int, na as int);
        let y = b@.subrange(i as int, nb as int);
        assert(x.len() == 0 || y.len() == 0);
    }
    i == na && i < nb
}

impl Explorer {
    /// The files of `listing` in ascending order, as the explorer shows
    /// them below the directories.
    pub fn sorted_files(listing: &Listing) -> (r: Vec<String>)
        ensures
            names_view(r@).to_multiset() == names_view(listing.files@).to_multiset(),
            text_sorted(names_view(r@)),
    {
        broadcast use vstd::seq_lib::to_multiset_insert;
        let files = &listing.files;
        let n = files.len();
        let mut r: Vec<String> = Vec::new();
        let mut i: usize = 0;
        proof {
            assert(names_view(r@) =~= names_view(files@.subrange(0, 0)));
        }
        while i < n
            invariant
                n == files@.len(),
                i <= n,
                names_view(r@).to_multiset() == names_view(files@.subrange(0, i as int)).to_multiset(),
                text_sorted(names_view(r@)),
            decreases n - i,
        {
            let m = r.len();
            let mut k: usize = 0;
            while k < m && !text_less(&files[i], &r[k])
                invariant
                    m == r@.len(),
                    k <= m,
                    i < n,
                    n == files@.len(),
                    forall|l: int| 0 <= l < k ==> !text_lt(files@[i as int]@, #[trigger] r@[l]@),
                decreases m - k,
            {
                k = k + 1;
            }
            let ghost old_r = names_view(r@);
            let ghost f = files@[i as int]@;
            r.insert(k, files[i].clone());
            proof {
                let nv = names_view(r@);
                assert(nv =~= old_r.insert(k as int, f));
                assert(names_view(files@.subrange(0, i + 1)) =~= names_view(files@.subrange(0, i as int)).push(f));
                let pre = names_view(files@.subrange(0, i as int));
                assert(pre.push(f) =~= pre.insert(i as int, f));
                vstd::seq_lib::to_multiset_insert(old_r, k as int, f);
                vstd::seq_lib::to_multiset_insert(pre, i as int, f);
                assert forall|a: int, b: int| 0 <= a < b < nv.len() implies !text_lt(#[trigger] nv[b], #[trigger] nv[a]) by {
                    if a < k && b == k {
                    } else if a == k && b > k {
                        // f < old_r[k] <= old_r[b - 1]
                        lemma_text_lt_asymmetric(f, old_r[k as int]);
                        if k < m {
                            lemma_text_lt_transitive(old_r[b - 1], f, old_r[k as int]);
                            if b - 1 > k {
                                assert(!text_lt(old_r[b - 1], old_r[k as int]));
                            }
                        }
                    } else if a < k && b > k {
                        assert(!text_lt(old_r[b - 1], old_r[a]));
                    } else if b < k {
                        assert(!text_lt(old_r[b], old_r[a]));
                    } else {
                        assert(!text_lt(old_r[b - 1], old_r[a - 1]));
                    }
                }
            }
            i = i + 1;
        }
        proof {
            assert(files@.subrange(0, n as int) =~= files@);
        }
        r
    }
}

} // verus!
