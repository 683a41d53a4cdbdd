//! The alias table: an ordered mapping from symbolic names to string
//! values with unique keys, and the fixpoint substitution that resolves
//! `{name}` placeholders inside command templates.

use vstd::prelude::*;
use std::path::PathBuf;
use crate::subst::{
    split_at_char, split_chars, views_of,
    append_chars, chars_eq, chars_to_string, contains_pat, find_pat, make_placeholder,
    replace_all, replace_all_exec, spec_placeholder, str_to_chars,
};

verus! {

/// Why a template could not be resolved: the alias definitions chain into
/// a cycle (substitution would never terminate), or a path was not valid
/// Unicode text.
#[derive(Clone, Copy, PartialEq, Eq, Structural, Debug)]
pub enum AliasError {
    Cyclic,
    NotUnicode,
}

/// `m` has an entry whose key is `k`.
pub open spec fn spec_has_key(m: Seq<(Seq<char>, Seq<char>)>, k: Seq<char>) -> bool {
    exists|j: int| 0 <= j < m.len() && (#[trigger] m[j]).0 == k
}

/// The index of the entry whose key is `k` (the table keeps keys unique).
pub open spec fn spec_key_index(m: Seq<(Seq<char>, Seq<char>)>, k: Seq<char>) -> int {
    choose|j: int| 0 <= j < m.len() && (#[trigger] m[j]).0 == k
}

/// Ordered mapping from alias name to value. Keys are unique; inserting an
/// existing key overwrites its value (later writes win).
pub struct Aliases {
    keys: Vec<Vec<char>>,
    values: Vec<Vec<char>>,
}

impl View for Aliases {
    type V = Seq<(Seq<char>, Seq<char>)>;

    closed spec fn view(&self) -> Seq<(Seq<char>, Seq<char>)> {
        Seq::new(self.keys@.len(), |i: int| (self.keys@[i]@, self.values@[i]@))
    }
}

impl Aliases {
    /// Well-formedness: every key has its value, and keys are unique.
    /// Constructed tables satisfy it and every operation preserves it.
    pub closed spec fn wf(&self) -> bool {
        &&& self.keys@.len() == self.values@.len()
        &&& forall|j1: int, j2: int|
            0 <= j1 < j2 < self.keys@.len() ==> self.keys@[j1]@ != self.keys@[j2]@
    }

    /// An empty table.
    pub fn new() -> (table: Aliases)
        ensures
            table@.len() == 0,
            table.wf(),
    {
        Aliases { keys: Vec::new(), values: Vec::new() }
    }

    /// How many aliases are registered.
    pub fn key_count(&self) -> (n: usize)
        ensures
            n == self@.len(),
    {
        self.keys.len()
    }

    /// Registers `key` with `value`. A later write to the same key wins:
    /// the entry keeps its position and takes the new value; a new key is
    /// appended.
    pub fn insert(&mut self, key: &str, value: &str)
        requires
            old(self).wf(),
        ensures
            final(self).wf(),
            spec_has_key(old(self)@, key@) ==> final(self)@ == old(self)@.update(
                spec_key_index(old(self)@, key@),
                (key@, value@),
            ),
            !spec_has_key(old(self)@, key@) ==> final(self)@ == old(self)@.push(
                (key@, value@),
            ),
    {
        let k = str_to_chars(key);
        let v = str_to_chars(value);
        let n = self.keys.len();
        let ghost orig = self@;
        let mut i: usize = 0;
        while i < n
            invariant
                i <= n,
                n == self.keys@.len(),
                self.wf(),
                orig == self@,
                orig == old(self)@,
                old(self).wf(),
                k@ == key@,
                v@ == value@,
                forall|j: int| 0 <= j < i ==> self.keys@[j]@ != key@,
            decreases n - i,
        {
            if chars_eq(&self.keys[i], &k) {
                proof {
                    assert(orig[i as int].0 == key@);
                    assert(spec_has_key(orig, key@));
                    let j = spec_key_index(orig, key@);
                    assert(orig[j].0 == key@);
                    assert(j == i);
                }
                self.values.set(i, v);
                proof {
                    assert(self@ =~= orig.update(i as int, (key@, value@)));
                }
                return ;
            }
            i = i + 1;
        }
        proof {
            assert(!spec_has_key(orig, key@));
        }
        self.keys.push(k);
        self.values.push(v);
        proof {
            assert(self@ =~= orig.push((key@, value@)));
        }
    }

    /// Looks the key up, returning its value where it is registered.
    pub fn get(&self, key: &str) -> (r: Option<String>)
        requires
            self.wf(),
        ensures
            r is Some <==> spec_has_key(self@, key@),
            r matches Some(v) ==> v@ == self@[spec_key_index(self@, key@)].1,
    {
        let k = str_to_chars(key);
        let n = self.keys.len();
        let mut i: usize = 0;
        while i < n
            invariant
                i <= n,
                n == self.keys@.len(),
                self.wf(),
                k@ == key@,
                forall|j: int| 0 <= j < i ==> self.keys@[j]@ != key@,
            decreases n - i,
        {
            if chars_eq(&self.keys[i], &k) {
                proof {
                    assert(self@[i as int].0 == key@);
                    assert(spec_has_key(self@, key@));
                    let j = spec_key_index(self@, key@);
                    assert(self@[j].0 == key@);
                    assert(j == i);
                }
                return Some(chars_to_string(&self.values[i]));
            }
            i = i + 1;
        }
        proof {
            assert(!spec_has_key(self@, key@));
        }
        None
    }

    /// Whether the key is registered.
    pub fn contains_key(&self, key: &str) -> (r: bool)
        requires
            self.wf(),
        ensures
            r == spec_has_key(self@, key@),
    {
        match self.get(key) {
            Some(_) => true,
            None => false,
        }
    }

    /// Some registered alias's placeholder occurs in `s`.
    fn any_placeholder(&self, s: &Vec<char>) -> (r: bool)
        requires
            self.wf(),
        ensures
            r == has_placeholder(s@, self@),
    {
        let n = self.keys.len();
        let mut j: usize = 0;
        while j < n
            invariant
                j <= n,
                n == self.keys@.len(),
                self.wf(),
                forall|t: int| 0 <= t < j ==> !contains_pat(s@, spec_placeholder(self@[t].0)),
            decreases n - j,
        {
            let ph = make_placeholder(&self.keys[j]);
            if find_pat(s, &ph) {
                proof {
                    assert(contains_pat(s@, spec_placeholder(self@[j as int].0)));
                }
                return true;
            }
            j = j + 1;
        }
        false
    }

    /// One full substitution pass: every registered alias replaced once,
    /// in table order.
    fn run_pass(&self, s: &Vec<char>) -> (r: Vec<char>)
        requires
            self.wf(),
        ensures
            r@ == spec_pass(s@, self@),
    {
        let n = self.keys.len();
        let mut cur: Vec<char> = Vec::new();
        append_chars(&mut cur, s);
        proof {
            assert(Seq::<char>::empty() + s@ =~= s@);
        }
        let mut j: usize = 0;
        while j < n
            invariant
                j <= n,
                n == self.keys@.len(),
                self.wf(),
                cur@ == pass_upto(s@, self@, j as int),
            decreases n - j,
        {
            let ph = make_placeholder(&self.keys[j]);
            cur = replace_all_exec(&cur, &ph, &self.values[j]);
            j = j + 1;
        }
        cur
    }
}

/// One substitution pass over the first `i` registered aliases, applied
/// in table order.
pub open spec fn pass_upto(s: Seq<char>, m: Seq<(Seq<char>, Seq<char>)>, i: int) -> Seq<char>
    decreases i,
{
    if i <= 0 {
        s
    } else {
        replace_all(pass_upto(s, m, i - 1), spec_placeholder(m[i - 1].0), m[i - 1].1)
    }
}

/// One full substitution pass: every registered alias replaced once, in
/// table order.
pub open spec fn spec_pass(s: Seq<char>, m: Seq<(Seq<char>, Seq<char>)>) -> Seq<char> {
    pass_upto(s, m, m.len() as int)
}

/// Some registered alias's placeholder occurs in `s`.
pub open spec fn has_placeholder(s: Seq<char>, m: Seq<(Seq<char>, Seq<char>)>) -> bool {
    exists|j: int| 0 <= j < m.len() && #[trigger] contains_pat(s, spec_placeholder(m[j].0))
}

/// The outcome of fixpoint resolution with `fuel` passes in hand: the
/// current text once no registered placeholder remains in it; nothing when
/// the fuel runs out, or when a pass no longer changes the text although a
/// placeholder remains (a cyclic definition). The engine grants one pass
/// per registered alias, which covers every chain of definitions that
/// reference further aliases; a template that braids placeholders out of
/// replaced fragments may need more and is then reported as cyclic — the
/// iteration cap that keeps resolution from looping forever.
pub open spec fn spec_resolve(
    s: Seq<char>,
    m: Seq<(Seq<char>, Seq<char>)>,
    fuel: nat,
) -> Option<Seq<char>>
    decreases fuel,
{
    if !has_placeholder(s, m) {
        Some(s)
    } else if fuel == 0 {
        None
    } else {
        let next = spec_pass(s, m);
        if next == s {
            None
        } else {
            spec_resolve(next, m, (fuel - 1) as nat)
        }
    }
}

/// Law: resolution stops at a fixed point that is free of placeholders.
/// Whenever it succeeds, no registered key's placeholder occurs anywhere
/// in the output, whatever the fuel.
pub proof fn lemma_resolved_is_placeholder_free(
    s: Seq<char>,
    m: Seq<(Seq<char>, Seq<char>)>,
    fuel: nat,
)
    requires
        spec_resolve(s, m, fuel) is Some,
    ensures
        forall|j: int|
            0 <= j < m.len() ==> !contains_pat(
                spec_resolve(s, m, fuel)->Some_0,
                spec_placeholder(m[j].0),
            ),
    decreases fuel,
{
    if !has_placeholder(s, m) {
    } else {
        lemma_resolved_is_placeholder_free(spec_pass(s, m), m, (fuel - 1) as nat);
    }
}

/// Law: granting more passes never changes a resolution that succeeds —
/// the iteration cap only cuts off, it never alters a result.
pub proof fn lemma_resolve_fuel_monotone(
    s: Seq<char>,
    m: Seq<(Seq<char>, Seq<char>)>,
    fuel: nat,
    more: nat,
)
    requires
        spec_resolve(s, m, fuel) is Some,
        fuel <= more,
    ensures
        spec_resolve(s, m, more) == spec_resolve(s, m, fuel),
    decreases fuel,
{
    if !has_placeholder(s, m) {
    } else {
        lemma_resolve_fuel_monotone(spec_pass(s, m), m, (fuel - 1) as nat, (more - 1) as nat);
    }
}

/// Resolves every `{name}` placeholder in `path` through the alias table,
/// repeating full passes until none remains. Definitions may reference
/// further aliases; a cyclic definition is reported as an error instead of
/// looping forever.
pub fn restore_str(path: &str, shortcuts: &Aliases) -> (r: Result<String, AliasError>)
    requires
        shortcuts.wf(),
    ensures
        r matches Ok(out) ==> spec_resolve(path@, shortcuts@, shortcuts@.len()) == Some(out@),
        r matches Err(e) ==> e == AliasError::Cyclic && spec_resolve(
            path@,
            shortcuts@,
            shortcuts@.len(),
        ) is None,
{
    let total = shortcuts.key_count();
    let mut cur: Vec<char> = str_to_chars(path);
    let mut k: usize = 0;
    loop
        invariant
            k <= total,
            total == shortcuts@.len(),
            shortcuts.wf(),
            spec_resolve(path@, shortcuts@, total as nat) == spec_resolve(
                cur@,
                shortcuts@,
                (total - k) as nat,
            ),
        decreases total - k,
    {
        if !shortcuts.any_placeholder(&cur) {
            return Ok(chars_to_string(&cur));
        }
        if k == total {
            return Err(AliasError::Cyclic);
        }
        let next = shortcuts.run_pass(&cur);
        if chars_eq(&next, &cur) {
            return Err(AliasError::Cyclic);
        }
        cur = next;
        k = k + 1;
    }
}

/// Under a well-formed table the key lookup is deterministic: any entry
/// whose key is `k` sits exactly at `spec_key_index`. In particular, after
/// `insert` of `(k, v)` a `get` of `k` returns `v`: the inserted entry is
/// the one the lookup finds.
pub proof fn lemma_key_index_unique(table: &Aliases, k: Seq<char>, j: int)
    requires
        table.wf(),
        0 <= j < table@.len(),
        table@[j].0 == k,
    ensures
        spec_has_key(table@, k),
        spec_key_index(table@, k) == j,
{
    assert(spec_has_key(table@, k));
    let j2 = spec_key_index(table@, k);
    assert(table@[j2].0 == k);
    assert(table@[j].0 == table.keys@[j]@);
    assert(table@[j2].0 == table.keys@[j2]@);
    if j < j2 {
        assert(table.keys@[j]@ != table.keys@[j2]@);
    } else if j2 < j {
        assert(table.keys@[j2]@ != table.keys@[j]@);
    }
}

/// Parses one `key:value` override line: the text before the first colon
/// names the alias, the text between the first and second colon (or the
/// end) is its value. A line without a colon is rejected.
pub fn parse_override(line: &str) -> (r: Option<(String, String)>)
    ensures
        ({
            let parts = split_at_char(line@, ':');
            &&& parts.len() >= 2 ==> (r matches Some(kv) && kv.0@ == parts[0] && kv.1@
                == parts[1])
            &&& parts.len() < 2 ==> r is None
        }),
{
    let chars = str_to_chars(line);
    let parts = split_chars(&chars, ':');
    if parts.len() >= 2 {
        proof {
            assert(views_of(parts@)[0] == parts@[0]@);
            assert(views_of(parts@)[1] == parts@[1]@);
        }
        Some((chars_to_string(&parts[0]), chars_to_string(&parts[1])))
    } else {
        None
    }
}

/// The pre-flight gate: whether any mandatory override key is still
/// missing from the alias table. While one is, no job may be scheduled.
pub fn requires_overrides(required: &Vec<String>, aliases: &Aliases) -> (r: bool)
    requires
        aliases.wf(),
    ensures
        r <==> exists|k: int|
            0 <= k < required@.len() && !spec_has_key(aliases@, (#[trigger] required@[k])@),
{
    let n = required.len();
    let mut k: usize = 0;
    while k < n
        invariant
            k <= n,
            n == required@.len(),
            aliases.wf(),
            forall|t: int| 0 <= t < k ==> spec_has_key(aliases@, (#[trigger] required@[t])@),
        decreases n - k,
    {
        if !aliases.contains_key(required[k].as_str()) {
            return true;
        }
        k = k + 1;
    }
    false
}

#[verifier::external_type_specification]
#[verifier::external_body]
pub struct ExPathBuf(PathBuf);

/// The Unicode text a path holds, where it holds valid Unicode.
pub uninterp spec fn path_chars(p: &PathBuf) -> Seq<char>;

/// Whether a path is valid Unicode text.
pub uninterp spec fn path_is_text(p: &PathBuf) -> bool;

/// Relies on `Path::to_str`: returns the path's text exactly when the
/// path is valid Unicode, and nothing otherwise.
#[verifier::external_body]
fn path_to_text(p: &PathBuf) -> (r: Option<String>)
    ensures
        r is Some <==> path_is_text(p),
        r matches Some(s) ==> s@ == path_chars(p),
{
    p.to_str().map(|s| s.to_owned())
}

/// Relies on `PathBuf::from(String)`: the returned path holds exactly the
/// given text, and is valid Unicode.
#[verifier::external_body]
fn path_of_text(s: String) -> (r: PathBuf)
    ensures
        path_is_text(&r),
        path_chars(&r) == s@,
{
    PathBuf::from(s)
}

/// Resolves every `{name}` placeholder in a path through the alias table,
/// as `restore_str` does for plain text: success is owed on every valid
/// Unicode path whose template resolves. A path that is not valid Unicode
/// cannot be resolved and is reported as such; a cyclic alias definition
/// is reported exactly as `restore_str` reports it.
pub fn restore_path(path: &PathBuf, shortcuts: &Aliases) -> (r: Result<PathBuf, AliasError>)
    requires
        shortcuts.wf(),
    ensures
        r matches Ok(p) ==> path_is_text(&p) && spec_resolve(
            path_chars(path),
            shortcuts@,
            shortcuts@.len(),
        ) == Some(path_chars(&p)),
        r matches Err(e) ==> (e == AliasError::NotUnicode <==> !path_is_text(path)),
        r matches Err(e) && e == AliasError::Cyclic ==> spec_resolve(
            path_chars(path),
            shortcuts@,
            shortcuts@.len(),
        ) is None,
        (path_is_text(path) && spec_resolve(
            path_chars(path),
            shortcuts@,
            shortcuts@.len(),
        ) is Some) ==> r is Ok,
{
    match path_to_text(path) {
        Some(text) => match restore_str(text.as_str(), shortcuts) {
            Ok(resolved) => Ok(path_of_text(resolved)),
            Err(e) => Err(e),
        },
        None => Err(AliasError::NotUnicode),
    }
}

} // verus!
