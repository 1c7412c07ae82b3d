//! Namespaces of port forwards and the configuration that names them.

use vstd::prelude::*;

verus! {

/// One local port forwarded to a port on the namespace's target.
#[derive(Debug, Clone, Copy, PartialEq, Eq, Structural)]
pub struct Forward {
    pub local: u16,
    pub remote: u16,
}

/// The SSH connection parameters of a namespace and the ports it forwards.
#[derive(Debug)]
pub struct Namespace {
    pub ssh_user: String,
    pub ssh_host: String,
    pub ssh_port: u16,
    pub target_ip: String,
    pub forwards: Vec<Forward>,
}

/// The mathematical value of a [`Namespace`].
pub struct NamespaceView {
    pub ssh_user: Seq<char>,
    pub ssh_host: Seq<char>,
    pub ssh_port: u16,
    pub target_ip: Seq<char>,
    pub forwards: Seq<Forward>,
}

impl View for Namespace {
    type V = NamespaceView;

    open spec fn view(&self) -> NamespaceView {
        NamespaceView {
            ssh_user: self.ssh_user@,
            ssh_host: self.ssh_host@,
            ssh_port: self.ssh_port,
            target_ip: self.target_ip@,
            forwards: self.forwards@,
        }
    }
}

/// A copy of a list of forwards.
pub fn copy_forwards(forwards: &Vec<Forward>) -> (r: Vec<Forward>)
    ensures
        r@ == forwards@,
{
    let mut r: Vec<Forward> = Vec::new();
    let mut i: usize = 0;
    while i < forwards.len()
        invariant
            0 <= i <= forwards@.len(),
            r@ == forwards@.take(i as int),
        decreases forwards@.len() - i,
    {
        r.push(forwards[i]);
        proof {
            assert(r@ =~= forwards@.take(i + 1));
        }
        i = i + 1;
    }
    proof {
        assert(forwards@.take(forwards@.len() as int) =~= forwards@);
    }
    r
}

impl Clone for Namespace {
    fn clone(&self) -> (r: Self)
        ensures
            r@ == self@,
    {
        Namespace {
            ssh_user: self.ssh_user.clone(),
            ssh_host: self.ssh_host.clone(),
            ssh_port: self.ssh_port,
            target_ip: self.target_ip.clone(),
            forwards: copy_forwards(&self.forwards),
        }
    }
}

/// Why a selection of namespaces was refused.
#[derive(Debug, PartialEq, Eq)]
pub enum ConfigError {
    /// No namespace name was given.
    NoNamespaceRequested,
    /// A requested name is not in the configuration.
    NamespaceNotFound(String),
}

/// The namespaces of the configuration, each under a distinct name.
#[derive(Debug)]
pub struct Config {
    namespaces: Vec<(String, Namespace)>,
}

/// The names of the entries are pairwise distinct.
pub open spec fn names_distinct(entries: Seq<(String, Namespace)>) -> bool {
    forall|i: int, j: int|
        0 <= i < entries.len() && 0 <= j < entries.len() && i != j ==> #[trigger] entries[i].0@
            != #[trigger] entries[j].0@
}

/// Some entry carries the name `name`.
pub open spec fn has_entry(entries: Seq<(String, Namespace)>, name: Seq<char>) -> bool {
    exists|i: int| 0 <= i < entries.len() && #[trigger] entries[i].0@ == name
}

/// The entries read as a map from names to namespaces.
pub open spec fn entries_map(entries: Seq<(String, Namespace)>) -> Map<Seq<char>, NamespaceView> {
    Map::new(
        |name: Seq<char>| has_entry(entries, name),
        |name: Seq<char>|
            entries[choose|i: int| 0 <= i < entries.len() && #[trigger] entries[i].0@ == name].1@,
    )
}

/// In entries with distinct names, the entry at `i` is what the map holds under its name.
proof fn lemma_entry_in_map(entries: Seq<(String, Namespace)>, i: int)
    requires
        names_distinct(entries),
        0 <= i < entries.len(),
    ensures
        entries_map(entries).dom().contains(entries[i].0@),
        entries_map(entries)[entries[i].0@] == entries[i].1@,
{
    let name = entries[i].0@;
    assert(has_entry(entries, name));
    let j = choose|j: int| 0 <= j < entries.len() && #[trigger] entries[j].0@ == name;
    assert(j == i);
}

impl Config {
    #[verifier::type_invariant]
    spec fn well_formed(self) -> bool {
        names_distinct(self.namespaces@)
    }

    /// The namespaces by name.
    pub closed spec fn namespaces_map(&self) -> Map<Seq<char>, NamespaceView> {
        entries_map(self.namespaces@)
    }

    /// A configuration without namespaces.
    pub fn new() -> (c: Self)
        ensures
            c@ == Map::<Seq<char>, NamespaceView>::empty(),
    {
        let c = Config { namespaces: Vec::new() };
        proof {
            assert(c@ =~= Map::<Seq<char>, NamespaceView>::empty());
        }
        c
    }

    fn position(&self, name: &String) -> (r: Option<usize>)
        ensures
            match r {
                Some(i) => i < self.namespaces@.len() && self.namespaces@[i as int].0@ == name@,
                None => !has_entry(self.namespaces@, name@),
            },
    {
        let mut i: usize = 0;
        while i < self.namespaces.len()
            invariant
                0 <= i <= self.namespaces@.len(),
                forall|j: int| 0 <= j < i ==> #[trigger] self.namespaces@[j].0@ != name@,
            decreases self.namespaces@.len() - i,
        {
            if self.namespaces[i].0 == *name {
                return Some(i);
            }
            i = i + 1;
        }
        None
    }

    /// The namespace stored under `name`, if there is one.
    pub fn get(&self, name: &String) -> (r: Option<Namespace>)
        ensures
            match r {
                Some(ns) => self@.dom().contains(name@) && ns@ == self@[name@],
                None => !self@.dom().contains(name@),
            },
    {
        proof {
            use_type_invariant(self);
        }
        match self.position(name) {
            Some(i) => {
                proof {
                    lemma_entry_in_map(self.namespaces@, i as int);
                }
                Some(self.namespaces[i].1.clone())
            },
            None => None,
        }
    }

    /// Stores `namespace` under `name`, replacing what was stored under it before.
    pub fn insert(&mut self, name: String, namespace: Namespace)
        ensures
            final(self)@ == old(self)@.insert(name@, namespace@),
    {
        proof {
            use_type_invariant(&*self);
        }
        let ghost before = self.namespaces@;
        let pos = self.position(&name);
        let mut entries: Vec<(String, Namespace)> = Vec::new();
        std::mem::swap(&mut entries, &mut self.namespaces);
        let ghost key = name@;
        let ghost value = namespace@;
        match pos {
            Some(i) => {
                entries.set(i, (name, namespace));
                proof {
                    let after = entries@;
                    assert(after[i as int].0@ == key);
                    assert(names_distinct(after));
                    assert forall|k: Seq<char>| #[trigger] has_entry(after, k) == (has_entry(before, k) || k == key) by {
                        if has_entry(before, k) {
                            let j = choose|j: int| 0 <= j < before.len() && #[trigger] before[j].0@ == k;
                            if j != i {
                                assert(after[j] == before[j]);
                            }
                            assert(has_entry(after, k));
                        }
                        if k == key {
                            assert(has_entry(after, k));
                        }
                        if has_entry(after, k) {
                            let j = choose|j: int| 0 <= j < after.len() && #[trigger] after[j].0@ == k;
                            if j != i {
                                assert(after[j] == before[j]);
                                assert(has_entry(before, k));
                            } else {
                                assert(k == key);
                            }
                        }
                    }
                    assert forall|k: Seq<char>| #[trigger] has_entry(after, k) implies entries_map(after)[k]
                        == entries_map(before).insert(key, value)[k] by {
                        let j = choose|j: int| 0 <= j < after.len() && #[trigger] after[j].0@ == k;
                        lemma_entry_in_map(after, j);
                        if j != i {
                            lemma_entry_in_map(before, j);
                        }
                    }
                    assert(entries_map(after) =~= entries_map(before).insert(key, value));
                }
            },
            None => {
                entries.push((name, namespace));
                proof {
                    let after = entries@;
                    let n = before.len() as int;
                    assert(after[n].0@ == key);
                    assert(names_distinct(after));
                    assert forall|k: Seq<char>| #[trigger] has_entry(after, k) == (has_entry(before, k) || k == key) by {
                        if has_entry(before, k) {
                            let j = choose|j: int| 0 <= j < before.len() && #[trigger] before[j].0@ == k;
                            assert(after[j] == before[j]);
                            assert(after[j].0@ == k);
                            assert(has_entry(after, k));
                        }
                        if k == key {
                            assert(after[n].0@ == k);
                            assert(has_entry(after, k));
                        }
                        if has_entry(after, k) {
                            let j = choose|j: int| 0 <= j < after.len() && #[trigger] after[j].0@ == k;
                            if j != n {
                                assert(after[j] == before[j]);
                                assert(has_entry(before, k));
                            } else {
                                assert(k == key);
                            }
                        }
                    }
                    assert forall|k: Seq<char>| #[trigger] has_entry(after, k) implies entries_map(after)[k]
                        == entries_map(before).insert(key, value)[k] by {
                        let j = choose|j: int| 0 <= j < after.len() && #[trigger] after[j].0@ == k;
                        lemma_entry_in_map(after, j);
                        if j != n {
                            lemma_entry_in_map(before, j);
                        }
                    }
                    assert(entries_map(after) =~= entries_map(before).insert(key, value));
                }
            },
        }
        self.namespaces = entries;
    }
}

impl Config {
    /// Picks the requested namespaces, in the requested order, each with its name.
    pub fn select_namespaces(&self, requested: &[String]) -> (r: Result<
        Vec<(String, Namespace)>,
        ConfigError,
    >)
        ensures
            match r {
                Ok(selected) => {
                    &&& requested@.len() > 0
                    &&& forall|i: int|
                        0 <= i < requested@.len() ==> self@.dom().contains(#[trigger] requested@[i]@)
                    &&& selected@.len() == requested@.len()
                    &&& forall|i: int|
                        0 <= i < requested@.len() ==> #[trigger] selected@[i].0@ == requested@[i]@
                            && selected@[i].1@ == self@[requested@[i]@]
                },
                Err(ConfigError::NoNamespaceRequested) => requested@.len() == 0,
                Err(ConfigError::NamespaceNotFound(name)) => {
                    &&& requested@.len() > 0
                    &&& !self@.dom().contains(name@)
                    &&& exists|i: int|
                        0 <= i < requested@.len() && #[trigger] requested@[i]@ == name@ && forall|j: int|
                            0 <= j < i ==> self@.dom().contains(#[trigger] requested@[j]@)
                },
            },
    {
        if requested.len() == 0 {
            return Err(ConfigError::NoNamespaceRequested);
        }
        let mut result: Vec<(String, Namespace)> = Vec::with_capacity(requested.len());
        let mut i: usize = 0;
        while i < requested.len()
            invariant
                0 <= i <= requested@.len(),
                requested@.len() > 0,
                result@.len() == i,
                forall|j: int| 0 <= j < i ==> self@.dom().contains(#[trigger] requested@[j]@),
                forall|j: int|
                    0 <= j < i ==> #[trigger] result@[j].0@ == requested@[j]@ && result@[j].1@
                        == self@[requested@[j]@],
            decreases requested@.len() - i,
        {
            let name = &requested[i];
            match self.get(name) {
                Some(namespace) => {
                    result.push((name.clone(), namespace));
                },
                None => {
                    proof {
                        assert(requested@[i as int]@ == name@);
                    }
                    return Err(ConfigError::NamespaceNotFound(name.clone()));
                },
            }
            i = i + 1;
        }
        Ok(result)
    }
}

impl ConfigError {
    /// The sentence that reports the error.
    pub fn message(&self) -> (s: String)
        ensures
            s@ == match self {
                ConfigError::NoNamespaceRequested => "at least one namespace is required"@,
                ConfigError::NamespaceNotFound(name) => "namespace "@ + name@ + " not found"@,
            },
    {
        match self {
            ConfigError::NoNamespaceRequested => String::from_str("at least one namespace is required"),
            ConfigError::NamespaceNotFound(name) => {
                let mut s = String::from_str("namespace ");
                s.append(name.as_str());
                s.append(" not found");
                s
            },
        }
    }
}

impl View for Config {
    type V = Map<Seq<char>, NamespaceView>;

    open spec fn view(&self) -> Map<Seq<char>, NamespaceView> {
        self.namespaces_map()
    }
}

/// What a lookup gives after a store: the namespace just stored under its name, and
/// under any other name what was there before.
pub proof fn lemma_lookup_after_insert(
    before: Map<Seq<char>, NamespaceView>,
    name: Seq<char>,
    namespace: NamespaceView,
    other: Seq<char>,
)
    requires
        other != name,
    ensures
        before.insert(name, namespace).dom().contains(name),
        before.insert(name, namespace)[name] == namespace,
        before.insert(name, namespace).dom().contains(other) == before.dom().contains(other),
        before.dom().contains(other) ==> before.insert(name, namespace)[other] == before[other],
{
}

} // verus!
