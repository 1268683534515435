use vstd::prelude::*;

use crate::paths::{join_path, joined, texts};
use crate::text::{chars_of, string_of_range};

verus! {

/// What `char::to_uppercase` makes of `c` (one or more characters).
pub uninterp spec fn upper_of(c: char) -> Seq<char>;

/// Relies on `char::to_uppercase`: the upper-case mapping of `c`, which depends on `c` alone.
#[verifier::external_body]
fn uppercase(c: char) -> (r: String)
    ensures
        r@ == upper_of(c),
{
    c.to_uppercase().collect::<String>()
}

/// The object name of a module key: its first character upper-cased, the rest kept.
pub open spec fn object_name_of(key: Seq<char>) -> Seq<char> {
    if key.len() == 0 {
        Seq::empty()
    } else {
        upper_of(key[0]) + key.drop_first()
    }
}

/// The object name built from the upper-cased first character and the key.
pub fn object_name_with(upper_first: &str, key: &str) -> (r: String)
    ensures
        key@.len() == 0 ==> r@ == Seq::<char>::empty(),
        key@.len() > 0 ==> r@ == upper_first@ + key@.drop_first(),
{
    let v = chars_of(key);
    let n = v.len();
    if n == 0 {
        return String::new();
    }
    let mut r = String::from_str(upper_first);
    let rest = string_of_range(&v, 1, n);
    assert(v@.subrange(1, n as int) =~= key@.drop_first());
    r.append(rest.as_str());
    r
}

/// The object name under which a module's functions are attached (`sqlite3` gives `Sqlite3`).
pub fn object_name_for(key: &str) -> (r: String)
    ensures
        r@ == object_name_of(key@),
{
    let v = chars_of(key);
    if v.len() == 0 {
        return String::new();
    }
    let upper = uppercase(v[0]);
    object_name_with(upper.as_str(), key)
}

/// Whether `c` is an ASCII decimal digit.
pub open spec fn is_ascii_digit(c: char) -> bool {
    '0' <= c <= '9'
}

/// `s` without its trailing ASCII digits.
pub open spec fn strip_digits(s: Seq<char>) -> Seq<char>
    decreases s.len(),
{
    if s.len() > 0 && is_ascii_digit(s.last()) {
        strip_digits(s.drop_last())
    } else {
        s
    }
}

/// The names under which a module is looked for: the name itself, then the name
/// without its trailing digits when that differs and is not empty.
pub open spec fn candidates_of(name: Seq<char>) -> Seq<Seq<char>> {
    let stripped = strip_digits(name);
    if stripped != name && stripped.len() > 0 {
        seq![name, stripped]
    } else {
        seq![name]
    }
}

/// The names under which a module is looked for on disk.
pub fn module_name_candidates(name: &str) -> (r: Vec<String>)
    ensures
        r@.map_values(|s: String| s@) == candidates_of(name@),
{
    let v = chars_of(name);
    let n = v.len();
    let mut e = n;
    assert(v@.subrange(0, n as int) =~= name@);
    while e > 0 && '0' <= v[e - 1] && v[e - 1] <= '9'
        invariant
            e <= n,
            n == v@.len(),
            v@ == name@,
            strip_digits(name@) == strip_digits(v@.subrange(0, e as int)),
        decreases e,
    {
        assert(v@.subrange(0, e as int).drop_last() =~= v@.subrange(0, e - 1));
        e -= 1;
    }
    let mut r: Vec<String> = Vec::new();
    r.push(String::from_str(name));
    if e < n && e > 0 {
        r.push(string_of_range(&v, 0, e));
        assert(v@.subrange(0, e as int).len() != name@.len());
        assert(r@.map_values(|s: String| s@) =~= candidates_of(name@));
    } else {
        assert(e == n ==> v@.subrange(0, e as int) =~= name@);
        assert(r@.map_values(|s: String| s@) =~= candidates_of(name@));
    }
    r
}

/// The file name of the shared library of a module.
pub open spec fn library_file(candidate: Seq<char>) -> Seq<char> {
    "libjhp_ext_"@ + candidate + ".so"@
}

/// The library paths tried for a module, in order.
pub fn library_candidates(name: &str, ext_dir: &str) -> (r: Vec<String>)
    ensures
        r@.len() == candidates_of(name@).len(),
        forall|i: int|
            0 <= i < r@.len() ==> (#[trigger] r@[i])@ == joined(
                ext_dir@,
                library_file(candidates_of(name@)[i]),
            ),
{
    let cands = module_name_candidates(name);
    let ghost cv = cands@.map_values(|s: String| s@);
    let mut r: Vec<String> = Vec::new();
    let mut i: usize = 0;
    while i < cands.len()
        invariant
            i <= cands@.len(),
            cv == cands@.map_values(|s: String| s@),
            cv == candidates_of(name@),
            r@.len() == i,
            forall|j: int|
                0 <= j < i ==> (#[trigger] r@[j])@ == joined(ext_dir@, library_file(cv[j])),
        decreases cands@.len() - i,
    {
        let mut file = String::from_str("libjhp_ext_");
        file.append(cands[i].as_str());
        file.append(".so");
        r.push(join_path(ext_dir, file.as_str()));
        i += 1;
    }
    r
}

/// Why a module could not be loaded.
#[derive(Debug, Clone)]
pub enum LoadError {
    /// No library file exists for any candidate name.
    NoLibrary { module: String, dir: String },
    /// The library exists but could not be opened.
    OpenFailed { path: String, reason: String },
    /// The library does not export the registration symbol.
    MissingSymbol { path: String },
    /// The registration table has another ABI version or no functions.
    UnsupportedAbi,
}

/// The text of a load error.
pub open spec fn load_error_text(e: LoadError) -> Seq<char> {
    match e {
        LoadError::NoLibrary { module, dir } => "No native library found for module '"@ + module@
            + "' in "@ + dir@,
        LoadError::OpenFailed { path, reason } => "Failed to load "@ + path@ + ": "@ + reason@,
        LoadError::MissingSymbol { path } => "Missing jhp_register_v1 in "@ + path@,
        LoadError::UnsupportedAbi => "Unsupported extension ABI or empty function table"@,
    }
}

impl LoadError {
    /// The text of the error, as scripts see it.
    pub fn message(&self) -> (r: String)
        ensures
            r@ == load_error_text(*self),
    {
        match self {
            LoadError::NoLibrary { module, dir } => {
                let mut r = String::from_str("No native library found for module '");
                r.append(module.as_str());
                r.append("' in ");
                r.append(dir.as_str());
                r
            },
            LoadError::OpenFailed { path, reason } => {
                let mut r = String::from_str("Failed to load ");
                r.append(path.as_str());
                r.append(": ");
                r.append(reason.as_str());
                r
            },
            LoadError::MissingSymbol { path } => {
                let mut r = String::from_str("Missing jhp_register_v1 in ");
                r.append(path.as_str());
                r
            },
            LoadError::UnsupportedAbi => String::from_str(
                "Unsupported extension ABI or empty function table",
            ),
        }
    }
}

/// The only registration ABI version that is accepted.
pub const ABI_VERSION: u32 = 1;

/// Accepts a registration table of ABI version 1 with a non-empty function table.
pub fn check_registration(abi_version: u32, funcs_is_null: bool, len: usize) -> (r: Result<
    (),
    LoadError,
>)
    ensures
        r is Ok <==> (abi_version == ABI_VERSION && !funcs_is_null && len > 0),
        r matches Err(e) ==> e is UnsupportedAbi,
{
    if abi_version != ABI_VERSION || funcs_is_null || len == 0 {
        Err(LoadError::UnsupportedAbi)
    } else {
        Ok(())
    }
}

/// The usable entries of a function table, with their positions: those whose
/// name could be read.
pub open spec fn usable_entries(names: Seq<Option<String>>) -> Seq<(nat, Seq<char>)>
    decreases names.len(),
{
    if names.len() == 0 {
        Seq::empty()
    } else {
        let rest = usable_entries(names.drop_last());
        match names.last() {
            Some(n) => rest.push(((names.len() - 1) as nat, n@)),
            None => rest,
        }
    }
}

/// The entries of a function table whose name could be read, with their positions.
pub fn table_entries(names: Vec<Option<String>>) -> (r: Vec<(usize, String)>)
    ensures
        r@.map_values(|e: (usize, String)| (e.0 as nat, e.1@)) == usable_entries(names@),
{
    let mut r: Vec<(usize, String)> = Vec::new();
    let mut i: usize = 0;
    while i < names.len()
        invariant
            i <= names@.len(),
            r@.map_values(|e: (usize, String)| (e.0 as nat, e.1@)) == usable_entries(
                names@.take(i as int),
            ),
        decreases names@.len() - i,
    {
        let ghost before = r@;
        assert(names@.take(i + 1).drop_last() =~= names@.take(i as int));
        match &names[i] {
            Some(n) => {
                r.push((i, n.clone()));
                assert(r@.map_values(|e: (usize, String)| (e.0 as nat, e.1@)) =~= before.map_values(
                    |e: (usize, String)| (e.0 as nat, e.1@),
                ).push((i as nat, n@)));
            },
            None => {},
        }
        i += 1;
    }
    assert(names@.take(names@.len() as int) =~= names@);
    r
}

} // verus!

verus! {

/// One loaded module: its key, the object name its functions are attached
/// under, the names of those functions and its installer.
pub struct ModuleEntry<I> {
    key: String,
    object_name: String,
    functions: Vec<String>,
    installer: I,
}

/// The modules loaded so far, append-only: an entry, once recorded, is never
/// changed or removed.
pub struct ModuleRegistry<I> {
    ext_dir: String,
    entries: Vec<ModuleEntry<I>>,
    pending: Vec<String>,
}

proof fn lemma_push_contains<A>(s: Seq<A>, a: A, k: A)
    ensures
        s.push(a).contains(k) <==> (s.contains(k) || a == k),
{
    if s.contains(k) {
        let j = choose|j: int| 0 <= j < s.len() && s[j] == k;
        assert(s.push(a)[j] == k);
    }
    if a == k {
        assert(s.push(a)[s.len() as int] == k);
    }
    if s.push(a).contains(k) {
        let j = choose|j: int| 0 <= j < s.len() + 1 && s.push(a)[j] == k;
        if j < s.len() {
            assert(s[j] == k);
        }
    }
}

/// Where a module key stands: unknown, being loaded by one loader, or loaded
/// (for the rest of the process).
#[derive(Debug, Clone, Copy, PartialEq, Eq)]
pub enum KeyState {
    Unknown,
    Loading,
    Loaded,
}

impl<I> ModuleRegistry<I> {
    /// The keys of the loaded modules, in load order.
    pub closed spec fn keys(&self) -> Seq<Seq<char>> {
        self.entries@.map_values(|e: ModuleEntry<I>| e.key@)
    }

    /// The function names of each loaded module, in load order.
    pub closed spec fn functions(&self) -> Seq<Seq<Seq<char>>> {
        self.entries@.map_values(|e: ModuleEntry<I>| texts(e.functions@))
    }

    /// The installers, in load order.
    pub closed spec fn installers(&self) -> Seq<I> {
        self.entries@.map_values(|e: ModuleEntry<I>| e.installer)
    }

    /// The keys being loaded.
    pub closed spec fn loading(&self) -> Seq<Seq<char>> {
        texts(self.pending@)
    }

    /// Where `key` stands.
    pub open spec fn state_of(&self, key: Seq<char>) -> KeyState {
        if self.keys().contains(key) {
            KeyState::Loaded
        } else if self.loading().contains(key) {
            KeyState::Loading
        } else {
            KeyState::Unknown
        }
    }

    /// The directory that libraries are looked for in, as text.
    pub closed spec fn ext_dir_view(&self) -> Seq<char> {
        self.ext_dir@
    }

    /// Keys are unique and every object name is derived from its key.
    pub closed spec fn wf(&self) -> bool {
        &&& forall|i: int, j: int|
            0 <= i < j < self.entries@.len() ==> (#[trigger] self.entries@[i]).key@ != (
            #[trigger] self.entries@[j]).key@
        &&& forall|i: int|
            0 <= i < self.entries@.len() ==> (#[trigger] self.entries@[i]).object_name@
                == object_name_of(self.entries@[i].key@)
    }

    /// An empty registry that finds libraries in `ext_dir`.
    pub fn new(ext_dir: String) -> (r: Self)
        ensures
            r.wf(),
            r.ext_dir_view() == ext_dir@,
            r.keys() == Seq::<Seq<char>>::empty(),
            forall|k: Seq<char>| r.state_of(k) == KeyState::Unknown,
    {
        let r = ModuleRegistry { ext_dir, entries: Vec::new(), pending: Vec::new() };
        assert(r.keys() =~= Seq::<Seq<char>>::empty());
        assert(r.loading() =~= Seq::<Seq<char>>::empty());
        r
    }

    /// The directory that libraries are looked for in.
    pub fn ext_dir(&self) -> (r: &str)
        ensures
            r@ == self.ext_dir_view(),
    {
        self.ext_dir.as_str()
    }

    /// The number of loaded modules.
    pub fn len(&self) -> (r: usize)
        ensures
            r == self.keys().len(),
    {
        self.entries.len()
    }

    fn position(&self, key: &str) -> (r: Option<usize>)
        ensures
            match r {
                Some(i) => i < self.keys().len() && self.keys()[i as int] == key@,
                None => !self.keys().contains(key@),
            },
    {
        let wanted = String::from_str(key);
        let mut i: usize = 0;
        while i < self.entries.len()
            invariant
                i <= self.entries@.len(),
                wanted@ == key@,
                forall|j: int| 0 <= j < i ==> self.keys()[j] != key@,
            decreases self.entries@.len() - i,
        {
            assert(self.keys()[i as int] == self.entries@[i as int].key@);
            if self.entries[i].key == wanted {
                return Some(i);
            }
            i += 1;
        }
        None
    }

    /// Whether the module `key` is loaded.
    pub fn is_loaded(&self, key: &str) -> (r: bool)
        ensures
            r == self.keys().contains(key@),
    {
        self.position(key).is_some()
    }

    /// Records a newly loaded module, unless `key` is loaded already (then
    /// nothing changes). Returns whether it was recorded.
    pub fn record(&mut self, key: &str, functions: Vec<String>, installer: I) -> (r: bool)
        requires
            old(self).wf(),
        ensures
            final(self).wf(),
            final(self).ext_dir_view() == old(self).ext_dir_view(),
            r == !old(self).keys().contains(key@),
            r ==> final(self).keys() == old(self).keys().push(key@) && final(self).functions()
                == old(self).functions().push(texts(functions@)) && final(self).installers()
                == old(self).installers().push(installer),
            !r ==> final(self).keys() == old(self).keys() && final(self).functions() == old(
                self,
            ).functions() && final(self).installers() == old(self).installers(),
            final(self).state_of(key@) == KeyState::Loaded,
            forall|k: Seq<char>| k != key@ ==> final(self).state_of(k) == old(self).state_of(k),
    {
        if self.is_loaded(key) {
            return false;
        }
        self.drop_pending(key);
        let ghost mid_loading = self.loading();
        let ghost old_entries = self.entries@;
        let entry = ModuleEntry {
            key: String::from_str(key),
            object_name: object_name_for(key),
            functions,
            installer,
        };
        self.entries.push(entry);
        assert(self.entries@.drop_last() =~= old_entries);
        assert(self.keys() =~= old(self).keys().push(key@));
        assert(self.functions() =~= old(self).functions().push(texts(functions@)));
        assert(self.installers() =~= old(self).installers().push(installer));
        assert(self.loading() == mid_loading);
        assert forall|k: Seq<char>| k != key@ implies self.state_of(k) == old(self).state_of(k) by {
            lemma_push_contains(old(self).keys(), key@, k);
            assert(mid_loading.contains(k) == old(self).loading().contains(k));
        }
        proof {
            lemma_push_contains(old(self).keys(), key@, key@);
        }
        assert forall|i: int, j: int| 0 <= i < j < self.entries@.len() implies (
        #[trigger] self.entries@[i]).key@ != (#[trigger] self.entries@[j]).key@ by {
            if j == self.entries@.len() - 1 {
                assert(old(self).keys()[i] == self.entries@[i].key@);
            }
        }
        true
    }

    /// Removes `key` from the keys being loaded.
    fn drop_pending(&mut self, key: &str)
        ensures
            final(self).entries == old(self).entries,
            final(self).ext_dir == old(self).ext_dir,
            forall|k: Seq<char>| #[trigger] final(self).loading().contains(k) <==> (old(
                self,
            ).loading().contains(k) && k != key@),
    {
        let ghost old_loading = self.loading();
        let wanted = String::from_str(key);
        let mut kept: Vec<String> = Vec::new();
        let mut i: usize = 0;
        while i < self.pending.len()
            invariant
                i <= self.pending@.len(),
                wanted@ == key@,
                old_loading == texts(self.pending@),
                forall|k: Seq<char>| #[trigger] texts(kept@).contains(k) <==> (texts(
                    self.pending@.take(i as int),
                ).contains(k) && k != key@),
            decreases self.pending@.len() - i,
        {
            let ghost before = kept@;
            let ghost t = texts(self.pending@.take(i as int));
            assert(texts(self.pending@.take(i + 1)) =~= t.push(self.pending@[i as int]@));
            if self.pending[i] != wanted {
                kept.push(self.pending[i].clone());
                assert(texts(kept@) =~= texts(before).push(self.pending@[i as int]@));
            } else {
                assert(texts(kept@) =~= texts(before));
            }
            assert forall|k: Seq<char>| #[trigger] texts(kept@).contains(k) <==> (texts(
                self.pending@.take(i + 1),
            ).contains(k) && k != key@) by {
                lemma_push_contains(t, self.pending@[i as int]@, k);
                lemma_push_contains(texts(before), self.pending@[i as int]@, k);
            }
            i += 1;
        }
        assert(self.pending@.take(self.pending@.len() as int) =~= self.pending@);
        self.pending = kept;
    }

    /// Marks `key` as being loaded when it is neither loaded nor being loaded,
    /// and says whether it did; the caller then loads it.
    pub fn start_loading(&mut self, key: &str) -> (r: bool)
        requires
            old(self).wf(),
        ensures
            final(self).wf(),
            final(self).ext_dir_view() == old(self).ext_dir_view(),
            final(self).keys() == old(self).keys(),
            final(self).functions() == old(self).functions(),
            final(self).installers() == old(self).installers(),
            r == (old(self).state_of(key@) == KeyState::Unknown),
            final(self).state_of(key@) == if r {
                KeyState::Loading
            } else {
                old(self).state_of(key@)
            },
            forall|k: Seq<char>| k != key@ ==> final(self).state_of(k) == old(self).state_of(k),
    {
        if self.is_loaded(key) {
            return false;
        }
        let wanted = String::from_str(key);
        let mut i: usize = 0;
        while i < self.pending.len()
            invariant
                self.wf(),
                self.entries == old(self).entries,
                self.pending == old(self).pending,
                self.ext_dir == old(self).ext_dir,
                !self.keys().contains(key@),
                i <= self.pending@.len(),
                wanted@ == key@,
                forall|j: int| 0 <= j < i ==> self.loading()[j] != key@,
            decreases self.pending@.len() - i,
        {
            assert(self.loading()[i as int] == self.pending@[i as int]@);
            if self.pending[i] == wanted {
                assert(self.loading().contains(key@));
                return false;
            }
            i += 1;
        }
        let ghost before = self.loading();
        self.pending.push(wanted);
        assert(self.loading() =~= before.push(key@));
        assert forall|k: Seq<char>| k != key@ implies self.state_of(k) == old(self).state_of(k) by {
            lemma_push_contains(before, key@, k);
        }
        proof {
            lemma_push_contains(before, key@, key@);
        }
        true
    }

    /// Gives up a load that failed: `key` is unknown again, unless it is loaded.
    pub fn abandon_loading(&mut self, key: &str)
        requires
            old(self).wf(),
        ensures
            final(self).wf(),
            final(self).ext_dir_view() == old(self).ext_dir_view(),
            final(self).keys() == old(self).keys(),
            final(self).functions() == old(self).functions(),
            final(self).installers() == old(self).installers(),
            final(self).state_of(key@) == if old(self).state_of(key@) == KeyState::Loaded {
                KeyState::Loaded
            } else {
                KeyState::Unknown
            },
            forall|k: Seq<char>| k != key@ ==> final(self).state_of(k) == old(self).state_of(k),
    {
        self.drop_pending(key);
    }

    /// The object name of a loaded module.
    pub fn object_name(&self, key: &str) -> (r: Option<String>)
        requires
            self.wf(),
        ensures
            r is Some <==> self.keys().contains(key@),
            r matches Some(n) ==> n@ == object_name_of(key@),
    {
        match self.position(key) {
            Some(i) => Some(self.entries[i].object_name.clone()),
            None => None,
        }
    }

    /// The installer of a loaded module.
    pub fn installer(&self, key: &str) -> (r: Option<&I>)
        ensures
            r is Some <==> self.keys().contains(key@),
            r matches Some(f) ==> exists|i: int|
                0 <= i < self.keys().len() && self.keys()[i] == key@ && self.installers()[i] == *f,
    {
        match self.position(key) {
            Some(i) => Some(&self.entries[i].installer),
            None => None,
        }
    }

    /// The installer of the `i`-th loaded module.
    pub fn installer_at(&self, i: usize) -> (r: &I)
        requires
            i < self.keys().len(),
        ensures
            *r == self.installers()[i as int],
    {
        &self.entries[i].installer
    }
}

/// What installing a module into a context does to the context's globals: the
/// global object it attaches the functions to, and the names it assigns on it.
/// The installer of a loaded module carries out this plan, then runs the
/// module's bootstrap scripts.
pub struct InstallPlan {
    pub object_name: String,
    pub functions: Vec<String>,
}

/// The install plan of the module `key` whose functions are `functions`.
pub fn install_plan(key: &str, functions: Vec<String>) -> (r: InstallPlan)
    ensures
        r.object_name@ == object_name_of(key@),
        texts(r.functions@) == texts(functions@),
{
    InstallPlan { object_name: object_name_for(key), functions }
}

/// A context's globals, as the names of the properties of the object under each
/// global name, after a module is installed: the module object is reused when
/// it is there, and each of the module's functions is assigned on it.
pub open spec fn install_module(
    globals: Map<Seq<char>, Set<Seq<char>>>,
    object_name: Seq<char>,
    functions: Seq<Seq<char>>,
) -> Map<Seq<char>, Set<Seq<char>>> {
    let existing = if globals.contains_key(object_name) {
        globals[object_name]
    } else {
        Set::empty()
    };
    globals.insert(object_name, existing.union(functions.to_set()))
}

/// The globals after the property writes of `plan` are carried out.
pub open spec fn apply_plan(globals: Map<Seq<char>, Set<Seq<char>>>, plan: InstallPlan) -> Map<
    Seq<char>,
    Set<Seq<char>>,
> {
    install_module(globals, plan.object_name@, texts(plan.functions@))
}

/// Carrying out an install plan twice in a context leaves the same global
/// objects and properties as carrying it out once: the module object is reused
/// and each function is assigned under the same name again. (What a module's
/// bootstrap scripts do to a context is theirs and is not part of the plan.)
pub proof fn lemma_install_idempotent(globals: Map<Seq<char>, Set<Seq<char>>>, plan: InstallPlan)
    ensures
        apply_plan(apply_plan(globals, plan), plan) == apply_plan(globals, plan),
{
    let once = apply_plan(globals, plan);
    let twice = apply_plan(once, plan);
    let o = plan.object_name@;
    assert(once[o].union(texts(plan.functions@).to_set()) =~= once[o]);
    assert(twice =~= once);
}

} // verus!
