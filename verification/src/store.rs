//! The link store: the record of which command names are currently linked,
//! one launcher entry per name.
//!
//! The store models the launcher directory: its view is a map from linked
//! name to target, and its entries are kept strictly sorted by name, so a
//! name occurs at most once and enumeration is deterministic. Each mutation
//! returns the launcher path it concerns, so the surrounding binary can
//! mirror the change on disk (writing a launcher atomically, or unlinking
//! it) without taking any decision of its own.

use vstd::prelude::*;

use crate::error::LinkError;
use crate::order::{
    lemma_seq_lt_ne, lemma_seq_lt_transitive, lemma_seq_lt_trichotomy, seq_lt, str_eq, str_lt,
};
use crate::path::exe_suffix;

verus! {

/// One record of the store: a linked name and the target it runs.
pub struct LinkEntry {
    pub name: String,
    pub target: String,
}

/// A linked command as reported to callers: its name, the host location of
/// its launcher, and the subsystem-side target it runs.
pub struct LinkedCommand {
    pub name: String,
    pub launcher_path: String,
    pub target: String,
}

/// Where the launcher for `name` lives: directly under the store directory,
/// named after the command plus the executable suffix. The location is a
/// function of the name alone (given the directory), so each name has
/// exactly one launcher.
pub open spec fn launcher_path_spec(dir: Seq<char>, name: Seq<char>) -> Seq<char> {
    dir + seq!['\\'] + name + exe_suffix()
}

/// Builds the launcher path for `name` under `dir`.
pub fn make_launcher_path(dir: &str, name: &str) -> (r: String)
    ensures
        r@ == launcher_path_spec(dir@, name@),
{
    let mut out = String::new();
    out.append(dir);
    out.append("\\");
    out.append(name);
    out.append(".exe");
    proof {
        reveal_strlit("\\");
        reveal_strlit(".exe");
        assert("\\"@ =~= seq!['\\']);
        assert(".exe"@ =~= exe_suffix());
        assert(out@ =~= launcher_path_spec(dir@, name@));
    }
    out
}

/// Whether some entry of `s` carries the name `k`.
pub open spec fn contains_name(s: Seq<LinkEntry>, k: Seq<char>) -> bool {
    exists|i: int| 0 <= i < s.len() && s[i].name@ == k
}

/// The index of the entry named `k` (meaningful only when one exists).
pub open spec fn index_of_name(s: Seq<LinkEntry>, k: Seq<char>) -> int {
    choose|i: int| 0 <= i < s.len() && s[i].name@ == k
}

/// The target recorded for the name `k` (meaningful only when present).
pub open spec fn target_of(s: Seq<LinkEntry>, k: Seq<char>) -> Seq<char> {
    s[index_of_name(s, k)].target@
}

/// Entries strictly sorted by name in lexicographic order.
pub open spec fn entries_sorted(s: Seq<LinkEntry>) -> bool {
    forall|i: int, j: int| 0 <= i < j < s.len() ==> seq_lt(s[i].name@, s[j].name@)
}

/// Strictly sorted entries carry pairwise distinct names.
proof fn lemma_sorted_distinct(s: Seq<LinkEntry>)
    requires
        entries_sorted(s),
    ensures
        forall|i: int, j: int|
            0 <= i < s.len() && 0 <= j < s.len() && i != j ==> s[i].name@ != s[j].name@,
{
    assert forall|i: int, j: int|
        0 <= i < s.len() && 0 <= j < s.len() && i != j implies s[i].name@ != s[j].name@ by {
        if i < j {
            lemma_seq_lt_ne(s[i].name@, s[j].name@);
        } else {
            lemma_seq_lt_ne(s[j].name@, s[i].name@);
        }
    }
}

/// In sorted entries, the entry at `j` is the one `index_of_name` picks for
/// its own name.
proof fn lemma_index_of_name_unique(s: Seq<LinkEntry>, j: int)
    requires
        entries_sorted(s),
        0 <= j < s.len(),
    ensures
        index_of_name(s, s[j].name@) == j,
        target_of(s, s[j].name@) == s[j].target@,
{
    let k = s[j].name@;
    assert(contains_name(s, k));
    let j2 = index_of_name(s, k);
    assert(0 <= j2 < s.len() && s[j2].name@ == k);
    lemma_sorted_distinct(s);
}

/// The durable record of linked commands, backed by one launcher per name
/// in a single well-known directory.
pub struct LinkStore {
    dir: String,
    entries: Vec<LinkEntry>,
}

impl View for LinkStore {
    type V = Map<Seq<char>, Seq<char>>;

    /// The store as a map from linked name to its target.
    closed spec fn view(&self) -> Map<Seq<char>, Seq<char>> {
        Map::new(
            |k: Seq<char>| contains_name(self.entries@, k),
            |k: Seq<char>| target_of(self.entries@, k),
        )
    }
}

impl LinkStore {
    /// The host directory the launchers live in.
    pub closed spec fn dir_spec(&self) -> Seq<char> {
        self.dir@
    }

    /// The linked names, in the order enumeration reports them.
    pub closed spec fn names(&self) -> Seq<Seq<char>> {
        self.entries@.map_values(|e: LinkEntry| e.name@)
    }

    /// Well-formedness: entries strictly sorted by name, hence one entry
    /// per name.
    pub closed spec fn wf(&self) -> bool {
        entries_sorted(self.entries@)
    }

    /// An empty store over the given launcher directory.
    pub fn new(dir: String) -> (s: LinkStore)
        ensures
            s.wf(),
            s@ == Map::<Seq<char>, Seq<char>>::empty(),
            s.dir_spec() == dir@,
            s.names() == Seq::<Seq<char>>::empty(),
    {
        let s = LinkStore { dir, entries: Vec::new() };
        proof {
            assert(s@ =~= Map::<Seq<char>, Seq<char>>::empty());
            assert(s.names() =~= Seq::<Seq<char>>::empty());
        }
        s
    }

    /// The number of linked names.
    pub fn len(&self) -> (n: usize)
        ensures
            n == self.names().len(),
    {
        self.entries.len()
    }

    /// The position where `name` stands or would be inserted: everything
    /// before it sorts strictly below `name`, and the entry at it (if any)
    /// does not.
    fn position_for(&self, name: &str) -> (r: usize)
        requires
            self.wf(),
        ensures
            r <= self.entries@.len(),
            forall|j: int| 0 <= j < r ==> seq_lt(self.entries@[j].name@, name@),
            r < self.entries@.len() ==> !seq_lt(self.entries@[r as int].name@, name@),
    {
        let n = self.entries.len();
        let mut i: usize = 0;
        while i < n
            invariant
                i <= n,
                n == self.entries@.len(),
                self.wf(),
                forall|j: int| 0 <= j < i ==> seq_lt(self.entries@[j].name@, name@),
            decreases n - i,
        {
            if !str_lt(self.entries[i].name.as_str(), name) {
                return i;
            }
            i = i + 1;
        }
        i
    }

    /// No entry carries `name` when the entry at its sorted position (if
    /// any) does not.
    proof fn lemma_absent(&self, name: Seq<char>, i: int)
        requires
            self.wf(),
            0 <= i <= self.entries@.len(),
            forall|j: int| 0 <= j < i ==> seq_lt(self.entries@[j].name@, name),
            i < self.entries@.len() ==> !seq_lt(self.entries@[i].name@, name) && self.entries@[i].name@ != name,
        ensures
            !self@.contains_key(name),
            !contains_name(self.entries@, name),
    {
        let s = self.entries@;
        if contains_name(s, name) {
            let j = choose|j: int| 0 <= j < s.len() && s[j].name@ == name;
            if j < i {
                lemma_seq_lt_ne(s[j].name@, name);
            } else if j == i {
            } else {
                assert(seq_lt(s[i as int].name@, s[j].name@));
            }
        }
    }

    /// Whether `name` is currently linked.
    pub fn is_linked(&self, name: &str) -> (r: bool)
        requires
            self.wf(),
        ensures
            r == self@.contains_key(name@),
    {
        let i = self.position_for(name);
        if i < self.entries.len() && str_eq(self.entries[i].name.as_str(), name) {
            proof {
                assert(contains_name(self.entries@, name@));
            }
            true
        } else {
            proof {
                self.lemma_absent(name@, i as int);
            }
            false
        }
    }

    /// Records `name` as linked to `target` and returns the launcher path
    /// to create; refuses with [`LinkError::AlreadyLinked`], changing
    /// nothing, when an entry for `name` already exists. It never
    /// overwrites: an existing link is reported, not silently replaced.
    pub fn create(&mut self, name: &str, target: &str) -> (r: Result<String, LinkError>)
        requires
            old(self).wf(),
        ensures
            final(self).wf(),
            final(self).dir_spec() == old(self).dir_spec(),
            old(self)@.contains_key(name@) ==> {
                &&& r == Err::<String, LinkError>(LinkError::AlreadyLinked)
                &&& final(self)@ == old(self)@
                &&& final(self).names() == old(self).names()
            },
            !old(self)@.contains_key(name@) ==> {
                &&& r is Ok
                &&& r->Ok_0@ == launcher_path_spec(old(self).dir_spec(), name@)
                &&& final(self)@ == old(self)@.insert(name@, target@)
            },
    {
        let i = self.position_for(name);
        if i < self.entries.len() && str_eq(self.entries[i].name.as_str(), name) {
            proof {
                assert(contains_name(self.entries@, name@));
            }
            return Err(LinkError::AlreadyLinked);
        }
        proof {
            self.lemma_absent(name@, i as int);
        }
        let ghost s_old = self.entries@;
        let ghost i_spec = i as int;
        let entry = LinkEntry { name: String::from_str(name), target: String::from_str(target) };
        self.entries.insert(i, entry);
        proof {
            let s_new = self.entries@;
            s_old.insert_ensures(i_spec, entry);
            assert(s_new == s_old.insert(i_spec, entry));
            if i_spec < s_old.len() {
                lemma_seq_lt_trichotomy(s_old[i_spec].name@, name@);
            }
            assert forall|p: int, q: int|
                0 <= p < q < s_new.len() implies seq_lt(s_new[p].name@, s_new[q].name@) by {
                if q < i_spec {
                    assert(s_new[p] == s_old[p] && s_new[q] == s_old[q]);
                } else if p < i_spec && q == i_spec {
                    assert(s_new[p] == s_old[p]);
                } else if p < i_spec && q > i_spec {
                    assert(s_new[p] == s_old[p] && s_new[q] == s_old[q - 1]);
                } else if p == i_spec {
                    assert(s_new[q] == s_old[q - 1]);
                    assert(seq_lt(name@, s_old[i_spec].name@));
                    if q - 1 > i_spec {
                        lemma_seq_lt_transitive(
                            name@,
                            s_old[i_spec].name@,
                            s_old[q - 1].name@,
                        );
                    }
                } else {
                    assert(s_new[p] == s_old[p - 1] && s_new[q] == s_old[q - 1]);
                }
            }
            assert(entries_sorted(s_new));
            lemma_sorted_distinct(s_new);
            lemma_sorted_distinct(s_old);
            assert forall|k: Seq<char>| #[trigger] contains_name(s_new, k) implies contains_name(
                s_old,
                k,
            ) || k == name@ by {
                let j = choose|j: int| 0 <= j < s_new.len() && s_new[j].name@ == k;
                if j < i_spec {
                    assert(s_old[j].name@ == k);
                } else if j == i_spec {
                } else {
                    assert(s_old[j - 1].name@ == k);
                }
            }
            assert forall|k: Seq<char>| #[trigger] contains_name(s_old, k) implies contains_name(
                s_new,
                k,
            ) by {
                let j = choose|j: int| 0 <= j < s_old.len() && s_old[j].name@ == k;
                if j < i_spec {
                    assert(s_new[j].name@ == k);
                } else {
                    assert(s_new[j + 1].name@ == k);
                }
            }
            assert(contains_name(s_new, name@)) by {
                assert(s_new[i_spec].name@ == name@);
            }
            assert forall|k: Seq<char>| #[trigger] contains_name(s_new, k) implies target_of(
                s_new,
                k,
            ) == (if k == name@ {
                target@
            } else {
                target_of(s_old, k)
            }) by {
                let j = index_of_name(s_new, k);
                assert(0 <= j < s_new.len() && s_new[j].name@ == k);
                if k == name@ {
                    lemma_index_of_name_unique(s_new, i_spec);
                } else {
                    if j < i_spec {
                        assert(s_old[j].name@ == k);
                        lemma_index_of_name_unique(s_old, j);
                        assert(s_new[j].target@ == s_old[j].target@);
                    } else if j == i_spec {
                        assert(false);
                    } else {
                        assert(s_old[j - 1].name@ == k);
                        lemma_index_of_name_unique(s_old, j - 1);
                        assert(s_new[j].target@ == s_old[j - 1].target@);
                    }
                    lemma_index_of_name_unique(s_new, j);
                }
            }
            assert(self@ =~= old(self)@.insert(name@, target@));
        }
        Ok(make_launcher_path(self.dir.as_str(), name))
    }

    /// Forgets the link for `name` and returns the launcher path to remove;
    /// refuses with [`LinkError::NotLinked`], changing nothing, when no
    /// entry for `name` exists.
    pub fn delete(&mut self, name: &str) -> (r: Result<String, LinkError>)
        requires
            old(self).wf(),
        ensures
            final(self).wf(),
            final(self).dir_spec() == old(self).dir_spec(),
            !old(self)@.contains_key(name@) ==> {
                &&& r == Err::<String, LinkError>(LinkError::NotLinked)
                &&& final(self)@ == old(self)@
                &&& final(self).names() == old(self).names()
            },
            old(self)@.contains_key(name@) ==> {
                &&& r is Ok
                &&& r->Ok_0@ == launcher_path_spec(old(self).dir_spec(), name@)
                &&& final(self)@ == old(self)@.remove(name@)
            },
    {
        let i = self.position_for(name);
        if !(i < self.entries.len() && str_eq(self.entries[i].name.as_str(), name)) {
            proof {
                self.lemma_absent(name@, i as int);
            }
            return Err(LinkError::NotLinked);
        }
        proof {
            assert(contains_name(self.entries@, name@));
        }
        let ghost s_old = self.entries@;
        let ghost i_spec = i as int;
        self.entries.remove(i);
        proof {
            let s_new = self.entries@;
            s_old.remove_ensures(i_spec);
            assert(s_new == s_old.remove(i_spec));
            assert forall|p: int, q: int|
                0 <= p < q < s_new.len() implies seq_lt(s_new[p].name@, s_new[q].name@) by {
                if q < i_spec {
                    assert(s_new[p] == s_old[p] && s_new[q] == s_old[q]);
                } else if p < i_spec {
                    assert(s_new[p] == s_old[p] && s_new[q] == s_old[q + 1]);
                } else {
                    assert(s_new[p] == s_old[p + 1] && s_new[q] == s_old[q + 1]);
                }
            }
            assert(entries_sorted(s_new));
            lemma_sorted_distinct(s_old);
            assert forall|k: Seq<char>| #[trigger] contains_name(s_new, k) implies contains_name(
                s_old,
                k,
            ) && k != name@ by {
                let j = choose|j: int| 0 <= j < s_new.len() && s_new[j].name@ == k;
                if j < i_spec {
                    assert(s_old[j].name@ == k);
                } else {
                    assert(s_old[j + 1].name@ == k);
                }
            }
            assert forall|k: Seq<char>|
                #[trigger] contains_name(s_old, k) && k != name@ implies contains_name(
                s_new,
                k,
            ) by {
                let j = choose|j: int| 0 <= j < s_old.len() && s_old[j].name@ == k;
                if j < i_spec {
                    assert(s_new[j].name@ == k);
                } else if j == i_spec {
                    assert(false);
                } else {
                    assert(s_new[j - 1].name@ == k);
                }
            }
            assert forall|k: Seq<char>| #[trigger] contains_name(s_new, k) implies target_of(
                s_new,
                k,
            ) == target_of(s_old, k) by {
                let j = index_of_name(s_new, k);
                assert(0 <= j < s_new.len() && s_new[j].name@ == k);
                lemma_index_of_name_unique(s_new, j);
                if j < i_spec {
                    assert(s_old[j].name@ == k);
                    lemma_index_of_name_unique(s_old, j);
                    assert(s_new[j].target@ == s_old[j].target@);
                } else {
                    assert(s_old[j + 1].name@ == k);
                    lemma_index_of_name_unique(s_old, j + 1);
                    assert(s_new[j].target@ == s_old[j + 1].target@);
                }
            }
            assert(self@ =~= old(self)@.remove(name@));
        }
        Ok(make_launcher_path(self.dir.as_str(), name))
    }

    /// The linked names, sorted; deterministic within one call by
    /// construction, and covering exactly the store's domain.
    pub fn enumerate(&self) -> (r: Vec<String>)
        requires
            self.wf(),
        ensures
            r.deep_view() == self.names(),
    {
        let n = self.entries.len();
        let mut out: Vec<String> = Vec::new();
        let mut i: usize = 0;
        while i < n
            invariant
                i <= n,
                n == self.entries@.len(),
                out@.len() == i,
                out.deep_view() =~= self.names().take(i as int),
            decreases n - i,
        {
            let ghost prev = out@;
            out.push(self.entries[i].name.clone());
            proof {
                assert forall|j: int| 0 <= j < i + 1 implies out.deep_view()[j] == self.names().take(
                    i as int + 1,
                )[j] by {
                    assert(out.deep_view()[j] == out@[j]@);
                    if j < i {
                        assert(out@[j] == prev[j]);
                        assert(prev[j]@ == self.names().take(i as int)[j]);
                    }
                }
                assert(out.deep_view() =~= self.names().take(i + 1));
            }
            i = i + 1;
        }
        proof {
            assert(self.names().take(n as int) =~= self.names());
        }
        out
    }

    /// All linked commands, sorted by name; each entry's launcher path is
    /// derived from its name, and each entry's name is in the store's
    /// domain with the entry's own target.
    pub fn list_entries(&self) -> (r: Vec<LinkedCommand>)
        requires
            self.wf(),
        ensures
            r@.len() == self.names().len(),
            forall|i: int| 0 <= i < r@.len() ==> {
                &&& (#[trigger] r@[i]).name@ == self.names()[i]
                &&& r@[i].launcher_path@ == launcher_path_spec(self.dir_spec(), r@[i].name@)
                &&& self@.contains_key(r@[i].name@)
                &&& r@[i].target@ == self@[r@[i].name@]
            },
    {
        let n = self.entries.len();
        let mut out: Vec<LinkedCommand> = Vec::new();
        let mut i: usize = 0;
        while i < n
            invariant
                i <= n,
                n == self.entries@.len(),
                self.wf(),
                out@.len() == i,
                forall|j: int| 0 <= j < i ==> {
                    &&& (#[trigger] out@[j]).name@ == self.names()[j]
                    &&& out@[j].launcher_path@ == launcher_path_spec(self.dir_spec(), out@[j].name@)
                    &&& self@.contains_key(out@[j].name@)
                    &&& out@[j].target@ == self@[out@[j].name@]
                },
            decreases n - i,
        {
            let e = &self.entries[i];
            let cmd = LinkedCommand {
                name: e.name.clone(),
                launcher_path: make_launcher_path(self.dir.as_str(), e.name.as_str()),
                target: e.target.clone(),
            };
            proof {
                lemma_index_of_name_unique(self.entries@, i as int);
                assert(contains_name(self.entries@, self.entries@[i as int].name@));
            }
            out.push(cmd);
            i = i + 1;
        }
        out
    }

    /// Every name the store reports is in its domain, and the other way
    /// round; the reported order is strictly sorted, so no name repeats.
    pub proof fn lemma_names_exact(&self)
        requires
            self.wf(),
        ensures
            forall|k: Seq<char>| self.names().contains(k) <==> self@.contains_key(k),
            forall|i: int, j: int|
                0 <= i < j < self.names().len() ==> seq_lt(self.names()[i], self.names()[j]),
    {
        assert forall|k: Seq<char>| self.names().contains(k) implies self@.contains_key(k) by {
            let j = choose|j: int| 0 <= j < self.names().len() && self.names()[j] == k;
            assert(self.entries@[j].name@ == k);
        }
        assert forall|k: Seq<char>| self@.contains_key(k) implies self.names().contains(k) by {
            let j = index_of_name(self.entries@, k);
            assert(0 <= j < self.entries@.len() && self.entries@[j].name@ == k);
            assert(self.names()[j] == k);
        }
    }
}

} // verus!
