//! The vault: named environments, each holding environment variables and
//! optionally filed under a folder, plus the list of folders.

use vstd::prelude::*;
pub mod crypto;
pub mod storage;

use crate::assoc::{StrMap, keys_of, lookup, put, delete};

verus! {

/// The variables of an environment, by name, in order of first insertion.
pub type VarMap = StrMap<String>;

/// The view of an optional string.
pub open spec fn opt_str(o: Option<String>) -> Option<Seq<char>> {
    match o {
        Some(s) => Some(s@),
        None => None,
    }
}

/// The view of an optional string slice.
pub open spec fn opt_str_ref(o: Option<&str>) -> Option<Seq<char>> {
    match o {
        Some(s) => Some(s@),
        None => None,
    }
}

/// What an entry holds, as mathematical values.
pub struct EntryView {
    pub id: Seq<char>,
    pub folder: Option<Seq<char>>,
    pub variables: Seq<(Seq<char>, Seq<char>)>,
}

/// An environment of the vault.
pub struct VaultEntry {
    pub id: String,
    pub folder: Option<String>,
    pub variables: VarMap,
}

impl View for VaultEntry {
    type V = EntryView;

    open spec fn view(&self) -> EntryView {
        EntryView { id: self.id@, folder: opt_str(self.folder), variables: self.variables@ }
    }
}

/// What a vault holds, as mathematical values: the entries by key, in order
/// of first insertion, and the folder names.
pub struct VaultView {
    pub entries: Seq<(Seq<char>, EntryView)>,
    pub folders: Seq<Seq<char>>,
}

/// The password vault.
pub struct Vault {
    pub entries: StrMap<VaultEntry>,
    pub folders: Vec<String>,
}

impl View for Vault {
    type V = VaultView;

    open spec fn view(&self) -> VaultView {
        VaultView { entries: self.entries@, folders: self.folders@.map_values(|f: String| f@) }
    }
}

/// The key under which an entry is stored: `folder/id` inside a folder, `id` at the root.
pub open spec fn entry_key(id: Seq<char>, folder: Option<Seq<char>>) -> Seq<char> {
    match folder {
        Some(f) => f + seq!['/'] + id,
        None => id,
    }
}

/// `e` moved to the root if it was filed under `name`.
pub open spec fn unfiled(e: EntryView, name: Seq<char>) -> EntryView {
    if e.folder == Some(name) {
        EntryView { folder: None, ..e }
    } else {
        e
    }
}

/// The entries of `s` with every entry filed under `name` moved to the root.
pub open spec fn unfile_all(s: Seq<(Seq<char>, EntryView)>, name: Seq<char>) -> Seq<(Seq<char>, EntryView)> {
    s.map_values(|p: (Seq<char>, EntryView)| (p.0, unfiled(p.1, name)))
}

/// The entries of `s` (in order) that are filed under `folder`, or at the root when it is `None`.
pub open spec fn entries_in(s: Seq<(Seq<char>, EntryView)>, folder: Option<Seq<char>>) -> Seq<EntryView> {
    s.map_values(|p: (Seq<char>, EntryView)| p.1).filter(|e: EntryView| e.folder == folder)
}

/// The folder list `fs` with `name` added unless it is already listed.
pub open spec fn with_folder(fs: Seq<Seq<char>>, name: Seq<char>) -> Seq<Seq<char>> {
    if fs.contains(name) {
        fs
    } else {
        fs.push(name)
    }
}

/// Adding a folder lists it; adding it again changes nothing; a list without
/// repetitions stays so.
pub proof fn lemma_with_folder(fs: Seq<Seq<char>>, name: Seq<char>)
    ensures
        with_folder(fs, name).contains(name),
        with_folder(with_folder(fs, name), name) == with_folder(fs, name),
        fs.no_duplicates() ==> with_folder(fs, name).no_duplicates(),
{
    if !fs.contains(name) {
        assert(fs.push(name)[fs.len() as int] == name);
    }
}

/// After removing folder `name`, it is no longer listed, no entry is filed
/// under it, the other folders keep their order, and the keys and everything
/// else about the entries are unchanged.
pub proof fn lemma_remove_folder(v: VaultView, name: Seq<char>)
    ensures
        !v.folders.filter(|f: Seq<char>| f != name).contains(name),
        forall|f: Seq<char>| f != name ==> (v.folders.filter(|g: Seq<char>| g != name).contains(f)
            <==> v.folders.contains(f)),
        unfile_all(v.entries, name).len() == v.entries.len(),
        forall|i: int|
            0 <= i < v.entries.len() ==> {
                let e = #[trigger] unfile_all(v.entries, name)[i];
                &&& e.0 == v.entries[i].0
                &&& e.1.folder != Some(name)
                &&& e.1.id == v.entries[i].1.id
                &&& e.1.variables == v.entries[i].1.variables
                &&& (v.entries[i].1.folder != Some(name) ==> e.1 == v.entries[i].1)
            },
        keys_of(unfile_all(v.entries, name)) == keys_of(v.entries),
        entries_in(unfile_all(v.entries, name), Some(name)) == Seq::<EntryView>::empty(),
{
    let keep = |f: Seq<char>| f != name;
    broadcast use vstd::seq_lib::group_filter_ensures;

    let fs = v.folders.filter(keep);
    if fs.contains(name) {
        let i = choose|i: int| 0 <= i < fs.len() && fs[i] == name;
        assert(keep(fs[i]));
    }
    assert forall|f: Seq<char>| f != name implies (v.folders.filter(keep).contains(f)
        <==> v.folders.contains(f)) by {
        if v.folders.contains(f) {
            let i = choose|i: int| 0 <= i < v.folders.len() && v.folders[i] == f;
            assert(keep(v.folders[i]));
        }
        if v.folders.filter(keep).contains(f) {
            v.folders.lemma_filter_contains_rev(keep, f);
        }
    }
    let u = unfile_all(v.entries, name);
    assert(keys_of(u) =~= keys_of(v.entries));
    let vals = u.map_values(|p: (Seq<char>, EntryView)| p.1);
    let pred = |e: EntryView| e.folder == Some(name);
    let found = vals.filter(pred);
    if found.len() > 0 {
        assert(pred(found[0]));
        assert(found.contains(found[0]));
        vals.lemma_filter_contains_rev(pred, found[0]);
        let j = choose|j: int| 0 <= j < vals.len() && vals[j] == found[0];
        assert(vals[j] == u[j].1);
    }
    assert(found =~= Seq::<EntryView>::empty());
}

/// How many entries the listings of the folders `fs` hold together.
pub open spec fn listed_count(s: Seq<(Seq<char>, EntryView)>, fs: Seq<Option<Seq<char>>>) -> int
    decreases fs.len(),
{
    if fs.len() == 0 {
        0
    } else {
        listed_count(s, fs.drop_last()) + entries_in(s, fs.last()).len()
    }
}

/// How many times `g` occurs in `fs`.
pub open spec fn occurrences(fs: Seq<Option<Seq<char>>>, g: Option<Seq<char>>) -> int
    decreases fs.len(),
{
    if fs.len() == 0 {
        0
    } else {
        occurrences(fs.drop_last(), g) + if fs.last() == g {
            1int
        } else {
            0int
        }
    }
}

proof fn lemma_occurrences(fs: Seq<Option<Seq<char>>>, g: Option<Seq<char>>)
    requires
        fs.no_duplicates(),
    ensures
        occurrences(fs, g) == if fs.contains(g) {
            1int
        } else {
            0int
        },
    decreases fs.len(),
{
    if fs.len() > 0 {
        let rest = fs.drop_last();
        assert(rest.no_duplicates());
        lemma_occurrences(rest, g);
        if fs.last() == g {
            if rest.contains(g) {
                let i = choose|i: int| 0 <= i < rest.len() && rest[i] == g;
                assert(fs[i] == fs[fs.len() - 1]);
            }
            assert(fs[fs.len() - 1] == g);
        } else {
            if fs.contains(g) {
                let i = choose|i: int| 0 <= i < fs.len() && fs[i] == g;
                assert(i < fs.len() - 1);
                assert(rest[i] == g);
            }
            if rest.contains(g) {
                let i = choose|i: int| 0 <= i < rest.len() && rest[i] == g;
                assert(fs[i] == g);
            }
        }
    }
}

proof fn lemma_entries_in_push(s: Seq<(Seq<char>, EntryView)>, x: (Seq<char>, EntryView), f: Option<Seq<char>>)
    ensures
        entries_in(s.push(x), f) == if x.1.folder == f {
            entries_in(s, f).push(x.1)
        } else {
            entries_in(s, f)
        },
{
    let vals = s.push(x).map_values(|p: (Seq<char>, EntryView)| p.1);
    assert(vals.drop_last() =~= s.map_values(|p: (Seq<char>, EntryView)| p.1));
    assert(vals.last() == x.1);
    reveal(Seq::filter);
}

proof fn lemma_listed_push(s: Seq<(Seq<char>, EntryView)>, x: (Seq<char>, EntryView), fs: Seq<Option<Seq<char>>>)
    ensures
        listed_count(s.push(x), fs) == listed_count(s, fs) + occurrences(fs, x.1.folder),
    decreases fs.len(),
{
    if fs.len() > 0 {
        lemma_listed_push(s, x, fs.drop_last());
        lemma_entries_in_push(s, x, fs.last());
    }
}

proof fn lemma_listed_empty(fs: Seq<Option<Seq<char>>>)
    ensures
        listed_count(Seq::<(Seq<char>, EntryView)>::empty(), fs) == 0,
    decreases fs.len(),
{
    if fs.len() > 0 {
        lemma_listed_empty(fs.drop_last());
        let vals = Seq::<(Seq<char>, EntryView)>::empty().map_values(|p: (Seq<char>, EntryView)| p.1);
        assert(vals.len() == 0);
        reveal(Seq::filter);
    }
}

/// An entry listed under folder `f` is filed under `f`.
pub proof fn lemma_listed_in(s: Seq<(Seq<char>, EntryView)>, f: Option<Seq<char>>, e: EntryView)
    requires
        entries_in(s, f).contains(e),
    ensures
        e.folder == f,
{
    broadcast use vstd::seq_lib::group_filter_ensures;

    let l = entries_in(s, f);
    let i = choose|i: int| 0 <= i < l.len() && l[i] == e;
    assert((|e: EntryView| e.folder == f)(l[i]));
}

/// The folder listings partition the entries: every entry is listed under its
/// own folder (the root when it has none), the listings of two different
/// folders share no entry, and over any list of distinct folders that covers
/// every entry's folder the listings hold as many entries as the vault.
pub proof fn lemma_folder_partition(s: Seq<(Seq<char>, EntryView)>, fs: Seq<Option<Seq<char>>>)
    requires
        fs.no_duplicates(),
        forall|i: int| 0 <= i < s.len() ==> fs.contains(#[trigger] s[i].1.folder),
    ensures
        listed_count(s, fs) == s.len(),
        forall|i: int| 0 <= i < s.len() ==> entries_in(s, s[i].1.folder).contains(#[trigger] s[i].1),
        forall|f1: Option<Seq<char>>, f2: Option<Seq<char>>, e: EntryView|
            #![trigger entries_in(s, f1).contains(e), entries_in(s, f2).contains(e)]
            f1 != f2 && entries_in(s, f1).contains(e) ==> !entries_in(s, f2).contains(e),
    decreases s.len(),
{
    broadcast use vstd::seq_lib::group_filter_ensures;

    if s.len() == 0 {
        lemma_listed_empty(fs);
        assert(s =~= Seq::<(Seq<char>, EntryView)>::empty());
    } else {
        let rest = s.drop_last();
        assert forall|i: int| 0 <= i < rest.len() implies fs.contains(#[trigger] rest[i].1.folder) by {
            assert(rest[i] == s[i]);
        }
        lemma_folder_partition(rest, fs);
        assert(s =~= rest.push(s.last()));
        lemma_listed_push(rest, s.last(), fs);
        assert(fs.contains(s[s.len() - 1].1.folder));
        lemma_occurrences(fs, s.last().1.folder);
    }
    assert forall|i: int| 0 <= i < s.len() implies entries_in(s, s[i].1.folder).contains(#[trigger] s[i].1) by {
        let vals = s.map_values(|p: (Seq<char>, EntryView)| p.1);
        assert(vals[i] == s[i].1);
        vals.lemma_filter_contains(|e: EntryView| e.folder == s[i].1.folder, i);
    }
    assert forall|f1: Option<Seq<char>>, f2: Option<Seq<char>>, e: EntryView|
        #![trigger entries_in(s, f1).contains(e), entries_in(s, f2).contains(e)]
        f1 != f2 && entries_in(s, f1).contains(e) implies !entries_in(s, f2).contains(e) by {
        lemma_listed_in(s, f1, e);
        if entries_in(s, f2).contains(e) {
            lemma_listed_in(s, f2, e);
        }
    }
}

impl Vault {
    /// An empty vault.
    pub fn new() -> (r: Self)
        ensures
            r@.entries == Seq::<(Seq<char>, EntryView)>::empty(),
            r@.folders == Seq::<Seq<char>>::empty(),
    {
        let folders: Vec<String> = Vec::new();
        let r = Vault { entries: StrMap::new(), folders };
        assert(r@.folders =~= Seq::<Seq<char>>::empty());
        r
    }

    /// Stores an entry `id` at the root, replacing an entry stored under the same key.
    pub fn add_entry(&mut self, id: String, variables: VarMap)
        ensures
            final(self)@.entries == put(
                old(self)@.entries,
                id@,
                EntryView { id: id@, folder: None, variables: variables@ },
            ),
            final(self)@.folders == old(self)@.folders,
    {
        self.add_entry_in_folder(id, None, variables);
    }

    /// Stores an entry `id` filed under `folder` (at the root when it is `None`), keyed by
    /// `entry_key`, replacing an entry stored under the same key.
    pub fn add_entry_in_folder(&mut self, id: String, folder: Option<String>, variables: VarMap)
        ensures
            final(self)@.entries == put(
                old(self)@.entries,
                entry_key(id@, opt_str(folder)),
                EntryView { id: id@, folder: opt_str(folder), variables: variables@ },
            ),
            final(self)@.folders == old(self)@.folders,
    {
        let key = match &folder {
            Some(f) => {
                let mut k = f.clone();
                k.append("/");
                k.append(id.as_str());
                proof {
                    reveal_strlit("/");
                }
                assert(k@ == entry_key(id@, opt_str(folder)));
                k
            },
            None => id.clone(),
        };
        self.entries.insert(key, VaultEntry { id, folder, variables });
    }

    /// The entry stored under key `id`.
    pub fn get_entry(&self, id: &str) -> (r: Option<&VaultEntry>)
        ensures
            match r {
                Some(e) => lookup(self@.entries, id@) == Some(e@),
                None => lookup(self@.entries, id@) is None,
            },
    {
        self.entries.get(id)
    }

    /// Removes the entry stored under key `id` and returns it.
    pub fn remove_entry(&mut self, id: &str) -> (r: Option<VaultEntry>)
        ensures
            final(self)@.entries == delete(old(self)@.entries, id@),
            final(self)@.folders == old(self)@.folders,
            match r {
                Some(e) => lookup(old(self)@.entries, id@) == Some(e@),
                None => lookup(old(self)@.entries, id@) is None,
            },
    {
        self.entries.remove(id)
    }

    /// Adds the folder `name` unless it is already listed.
    pub fn add_folder(&mut self, name: String)
        ensures
            final(self)@.entries == old(self)@.entries,
            final(self)@.folders == with_folder(old(self)@.folders, name@),
    {
        let mut i: usize = 0;
        while i < self.folders.len()
            invariant
                i <= self.folders@.len(),
                self@ == old(self)@,
                forall|j: int| 0 <= j < i ==> #[trigger] self@.folders[j] != name@,
            decreases self.folders@.len() - i,
        {
            if self.folders[i] == name {
                assert(self@.folders[i as int] == name@);
                return;
            }
            i += 1;
        }
        self.folders.push(name);
        assert(self@.folders =~= old(self)@.folders.push(name@));
    }

    /// Removes the folder `name` from the list and moves the entries filed under it to the root.
    pub fn remove_folder(&mut self, name: &str)
        ensures
            final(self)@.folders == old(self)@.folders.filter(|f: Seq<char>| f != name@),
            final(self)@.entries == unfile_all(old(self)@.entries, name@),
    {
        let target = name.to_owned();
        let ghost keep = |f: Seq<char>| f != name@;
        let mut kept: Vec<String> = Vec::new();
        let mut i: usize = 0;
        while i < self.folders.len()
            invariant
                i <= self.folders@.len(),
                target@ == name@,
                self@ == old(self)@,
                keep == (|f: Seq<char>| f != name@),
                kept@.map_values(|f: String| f@) == self@.folders.take(i as int).filter(keep),
            decreases self.folders@.len() - i,
        {
            proof {
                reveal(Seq::filter);
                assert(self@.folders.take(i + 1).drop_last() =~= self@.folders.take(i as int));
            }
            if !(self.folders[i] == target) {
                kept.push(self.folders[i].clone());
                assert(kept@.map_values(|f: String| f@) =~= self@.folders.take(i as int).filter(keep).push(self@.folders[i as int]));
            }
            i += 1;
        }
        assert(self@.folders.take(i as int) =~= self@.folders);
        self.folders = kept;
        assert(self@.folders == old(self)@.folders.filter(keep));
        let ghost start = self@.entries;
        let mut j: usize = 0;
        while j < self.entries.len()
            invariant
                j <= self.entries@.len(),
                target@ == name@,
                start == old(self)@.entries,
                self@.folders == old(self)@.folders.filter(keep),
                keep == (|f: Seq<char>| f != name@),
                self.entries@.len() == start.len(),
                forall|a: int| 0 <= a < j ==> #[trigger] self.entries@[a] == (start[a].0, unfiled(start[a].1, name@)),
                forall|a: int| j <= a < start.len() ==> #[trigger] self.entries@[a] == start[a],
            decreases self.entries@.len() - j,
        {
            let filed_here = match &self.entries.value_at(j).folder {
                Some(f) => *f == target,
                None => false,
            };
            if filed_here {
                let placeholder = VaultEntry { id: String::new(), folder: None, variables: StrMap::new() };
                let mut e = self.entries.replace_value_at(j, placeholder);
                e.folder = None;
                self.entries.replace_value_at(j, e);
            }
            j += 1;
        }
        assert(self@.entries =~= unfile_all(start, name@));
    }

    /// The entries filed under `folder` (the root entries when it is `None`), in the
    /// order in which their keys were first added.
    pub fn get_entries_in_folder(&self, folder: Option<&str>) -> (r: Vec<&VaultEntry>)
        ensures
            r@.map_values(|e: &VaultEntry| e@) == entries_in(self@.entries, opt_str_ref(folder)),
    {
        let target: Option<String> = match folder {
            Some(f) => Some(f.to_owned()),
            None => None,
        };
        let ghost want = opt_str_ref(folder);
        let ghost vals = self@.entries.map_values(|p: (Seq<char>, EntryView)| p.1);
        let ghost pred = |e: EntryView| e.folder == want;
        let mut out: Vec<&VaultEntry> = Vec::new();
        let mut i: usize = 0;
        while i < self.entries.len()
            invariant
                i <= self.entries@.len(),
                opt_str(target) == want,
                vals == self@.entries.map_values(|p: (Seq<char>, EntryView)| p.1),
                pred == (|e: EntryView| e.folder == want),
                out@.map_values(|e: &VaultEntry| e@) == vals.take(i as int).filter(pred),
            decreases self.entries@.len() - i,
        {
            proof {
                reveal(Seq::filter);
                assert(vals.take(i + 1).drop_last() =~= vals.take(i as int));
            }
            let e = self.entries.value_at(i);
            let matches_folder = match (&e.folder, &target) {
                (Some(a), Some(b)) => *a == *b,
                (None, None) => true,
                _ => false,
            };
            if matches_folder {
                out.push(e);
                assert(out@.map_values(|e: &VaultEntry| e@) =~= vals.take(i as int).filter(pred).push(vals[i as int]));
            }
            i += 1;
        }
        assert(vals.take(i as int) =~= vals);
        out
    }
}

impl Default for Vault {
    /// An empty vault.
    fn default() -> (r: Self)
        ensures
            r@.entries == Seq::<(Seq<char>, EntryView)>::empty(),
            r@.folders == Seq::<Seq<char>>::empty(),
    {
        Vault::new()
    }
}

} // verus!
