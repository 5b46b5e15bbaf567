//! Player script store: the scripts of one folder, keyed by file name.
//!
//! A directory pass (done by the host, which owns the filesystem) hands
//! the store the files it could read and the ones it could not. The store
//! hashes the texts, keeps its scripts sorted by name, and on every pass
//! works out what was added, what changed (by content hash), what is gone
//! and what failed. A file that fails to load keeps its previous good
//! version. Every list of a report is sorted by name.

use std::time::SystemTime;

use vstd::prelude::*;
use vstd::utf8::encode_utf8;

use crate::hash::{fnv1a, Fnv1a, FNV_OFFSET_BASIS};
use crate::order::{lemma_name_order, name_lt, name_order, NameOrder};

verus! {

/// Declares std's `SystemTime` so entries can carry their modification
/// times; nothing about a time's value is visible or assumed.
#[verifier::external_type_specification]
#[verifier::external_body]
pub struct ExSystemTime(SystemTime);

/// FNV-1a hash of the UTF-8 encoding of a script text.
pub open spec fn text_hash(text: Seq<char>) -> u64 {
    fnv1a(encode_utf8(text))
}

/// Hash a script text (change detection).
pub fn hash_text(text: &str) -> (h: u64)
    ensures
        h == text_hash(text@),
{
    let bytes = text.as_bytes();
    assert(bytes@ == encode_utf8(text@));
    let mut hasher = Fnv1a::new();
    hasher.write_bytes(bytes);
    hasher.finish()
}

/// A file name is a script name when it ends in `.lua` behind a non-empty
/// stem (the file's extension is `lua`).
pub open spec fn is_script_name(name: Seq<char>) -> bool {
    &&& name.len() >= 5
    &&& name.subrange(name.len() - 4, name.len() as int) =~= seq!['.', 'l', 'u', 'a']
}

/// Whether a directory entry with this file name is a script file.
pub fn is_script_file_name(name: &str) -> (r: bool)
    ensures
        r == is_script_name(name@),
{
    let n = name.unicode_len();
    if n < 5 {
        return false;
    }
    let a = name.get_char(n - 4);
    let b = name.get_char(n - 3);
    let c = name.get_char(n - 2);
    let d = name.get_char(n - 1);
    let r = a == '.' && b == 'l' && c == 'u' && d == 'a';
    proof {
        let s = name@;
        let tail = s.subrange(s.len() - 4, s.len() as int);
        if r {
            assert(tail =~= seq!['.', 'l', 'u', 'a']);
        } else {
            if tail =~= seq!['.', 'l', 'u', 'a'] {
                assert(tail[0] == s[s.len() - 4]);
                assert(tail[1] == s[s.len() - 3]);
                assert(tail[2] == s[s.len() - 2]);
                assert(tail[3] == s[s.len() - 1]);
            }
        }
    }
    r
}

/// Names in strictly ascending order (so no name occurs twice).
pub open spec fn ascending(names: Seq<Seq<char>>) -> bool {
    forall|i: int, j: int| 0 <= i < j < names.len() ==> name_lt(#[trigger] names[i], #[trigger] names[j])
}

/// The character sequences of a list of strings.
pub open spec fn string_views(v: Seq<String>) -> Seq<Seq<char>> {
    v.map_values(|s: String| s@)
}

/// Insert a new name into a strictly ascending list of names.
fn insert_name(names: &mut Vec<String>, name: String)
    requires
        ascending(string_views(old(names)@)),
        !string_views(old(names)@).contains(name@),
    ensures
        ascending(string_views(final(names)@)),
        forall|x: Seq<char>|
            #[trigger] string_views(final(names)@).contains(x) <==> (string_views(
                old(names)@,
            ).contains(x) || x == name@),
{
    let ghost before = string_views(names@);
    let mut j = names.len();
    while j > 0 && name_order(name.as_str(), names[j - 1].as_str()) == NameOrder::Before
        invariant
            j <= names@.len(),
            before == string_views(names@),
            forall|k: int| j <= k < names@.len() ==> name_lt(name@, #[trigger] before[k]),
        decreases j,
    {
        j = j - 1;
    }
    proof {
        if j > 0 {
            let p = before[j - 1];
            assert(p != name@) by {
                assert(before.contains(p));
            }
            lemma_name_order(name@, p, name@);
            assert forall|k: int| 0 <= k < j implies name_lt(#[trigger] before[k], name@) by {
                if k < j - 1 {
                    lemma_name_order(before[k], p, name@);
                }
            }
        }
    }
    names.insert(j, name);
    proof {
        let after = string_views(names@);
        assert(after =~= before.take(j as int).push(name@) + before.skip(j as int));
        assert forall|x: Seq<char>| #[trigger] after.contains(x) <==> (before.contains(x) || x == name@) by {
            if after.contains(x) {
                let k = choose|k: int| 0 <= k < after.len() && after[k] == x;
                if k < j {
                    assert(before[k] == x);
                } else if k > j {
                    assert(before[k - 1] == x);
                }
            }
            if before.contains(x) {
                let k = choose|k: int| 0 <= k < before.len() && before[k] == x;
                if k < j {
                    assert(after[k] == x);
                } else {
                    assert(after[k + 1] == x);
                }
            }
            if x == name@ {
                assert(after[j as int] == x);
            }
        }
        assert forall|a: int, b: int| 0 <= a < b < after.len() implies name_lt(
            #[trigger] after[a],
            #[trigger] after[b],
        ) by {
            if b < j {
                assert(after[a] == before[a] && after[b] == before[b]);
            } else if b == j {
                assert(after[a] == before[a]);
            } else if a == j {
                assert(after[b] == before[b - 1]);
            } else if a < j {
                assert(after[a] == before[a] && after[b] == before[b - 1]);
            } else {
                assert(after[a] == before[a - 1] && after[b] == before[b - 1]);
            }
        }
    }
}

/// One loaded script file.
#[derive(Debug, PartialEq, Eq)]
pub struct StoredScript {
    /// File name including the `.lua` extension (the store key).
    pub name: String,
    /// Full script text.
    pub text: String,
    /// FNV-1a hash of the text (the change detector).
    pub hash: u64,
    /// File modification time (a hint only: the hash decides changes).
    pub mtime: SystemTime,
}

/// What a stored script holds, as plain values.
pub struct ScriptView {
    pub name: Seq<char>,
    pub text: Seq<char>,
    pub hash: u64,
    pub mtime: SystemTime,
}

impl View for StoredScript {
    type V = ScriptView;

    open spec fn view(&self) -> ScriptView {
        ScriptView { name: self.name@, text: self.text@, hash: self.hash, mtime: self.mtime }
    }
}

impl StoredScript {
    /// A copy of this entry.
    pub fn duplicate(&self) -> (r: Self)
        ensures
            r@ == self@,
    {
        StoredScript {
            name: self.name.clone(),
            text: self.text.clone(),
            hash: self.hash,
            mtime: self.mtime,
        }
    }
}

/// A file that failed to load during a pass.
#[derive(Debug, Clone, PartialEq, Eq)]
pub struct FailedFile {
    /// File name that failed.
    pub name: String,
    /// Human-readable reason (the read or metadata error text).
    pub reason: String,
}

/// A file the host read successfully during a directory pass.
#[derive(Debug, PartialEq, Eq)]
pub struct LoadedFile {
    /// File name including the extension.
    pub name: String,
    /// Full text.
    pub text: String,
    /// Modification time.
    pub mtime: SystemTime,
}

/// The names of stored scripts, in order.
pub open spec fn script_names(s: Seq<StoredScript>) -> Seq<Seq<char>> {
    s.map_values(|e: StoredScript| e.name@)
}

/// Insert an entry into a list sorted strictly by name, replacing the entry
/// of the same name if there is one.
fn upsert(scripts: &mut Vec<StoredScript>, entry: StoredScript)
    requires
        ascending(script_names(old(scripts)@)),
    ensures
        ascending(script_names(final(scripts)@)),
        forall|x: Seq<char>|
            #[trigger] script_names(final(scripts)@).contains(x) <==> (script_names(
                old(scripts)@,
            ).contains(x) || x == entry.name@),
        forall|k: int|
            0 <= k < final(scripts)@.len() ==> (#[trigger] final(scripts)@[k].name@ == entry.name@
                ==> final(scripts)@[k]@ == entry@),
        forall|k: int|
            0 <= k < final(scripts)@.len() ==> (#[trigger] final(scripts)@[k].name@ != entry.name@
                ==> exists|m: int|
                0 <= m < old(scripts)@.len() && old(scripts)@[m]@ == final(scripts)@[k]@),
{
    let ghost before = script_names(scripts@);
    let ghost old_scripts = scripts@;
    let mut j = scripts.len();
    let mut same = false;
    let mut stop = false;
    while j > 0 && !same && !stop
        invariant
            j <= scripts@.len(),
            scripts@ == old_scripts,
            before == script_names(scripts@),
            !(same && stop),
            same ==> j < scripts@.len() && before[j as int] == entry.name@,
            stop ==> j > 0 && name_lt(before[j - 1], entry.name@),
            !same ==> forall|k: int| j <= k < scripts@.len() ==> name_lt(entry.name@, #[trigger] before[k]),
        decreases j + (if same || stop { 0int } else { 1int }),
    {
        let o = name_order(entry.name.as_str(), scripts[j - 1].name.as_str());
        if o == NameOrder::Before {
            j = j - 1;
        } else if o == NameOrder::Same {
            j = j - 1;
            same = true;
        } else {
            stop = true;
        }
    }
    if same {
        scripts.set(j, entry);
        proof {
            let after = script_names(scripts@);
            assert(after =~= before);
            assert forall|k: int|
                0 <= k < scripts@.len() && #[trigger] scripts@[k].name@ != entry.name@ implies exists|m: int|
                0 <= m < old_scripts.len() && old_scripts[m]@ == scripts@[k]@ by {
                assert(k != j);
                assert(old_scripts[k]@ == scripts@[k]@);
            }
            assert forall|k: int|
                0 <= k < scripts@.len() && #[trigger] scripts@[k].name@ == entry.name@ implies scripts@[k]@ == entry@ by {
                if k != j {
                    assert(before[k] == before[j as int]);
                    if k < j {
                        assert(name_lt(before[k], before[j as int]));
                    } else {
                        assert(name_lt(before[j as int], before[k]));
                    }
                    lemma_name_order(before[k], before[k], before[k]);
                }
            }
            assert forall|x: Seq<char>| #[trigger] after.contains(x) <==> (before.contains(x) || x == entry.name@) by {
                if x == entry.name@ {
                    assert(before[j as int] == x);
                }
            }
        }
    } else {
        proof {
            if j > 0 {
                let p = before[j - 1];
                lemma_name_order(entry.name@, p, entry.name@);
                assert forall|k: int| 0 <= k < j implies name_lt(#[trigger] before[k], entry.name@) by {
                    if k < j - 1 {
                        lemma_name_order(before[k], p, entry.name@);
                    }
                }
            }
        }
        let ghost name = entry.name@;
        let ghost ev = entry@;
        scripts.insert(j, entry);
        proof {
            let after = script_names(scripts@);
            assert(after =~= before.take(j as int).push(name) + before.skip(j as int));
            assert forall|x: Seq<char>| #[trigger] after.contains(x) <==> (before.contains(x) || x == name) by {
                if after.contains(x) {
                    let k = choose|k: int| 0 <= k < after.len() && after[k] == x;
                    if k < j {
                        assert(before[k] == x);
                    } else if k > j {
                        assert(before[k - 1] == x);
                    }
                }
                if before.contains(x) {
                    let k = choose|k: int| 0 <= k < before.len() && before[k] == x;
                    if k < j {
                        assert(after[k] == x);
                    } else {
                        assert(after[k + 1] == x);
                    }
                }
                if x == name {
                    assert(after[j as int] == x);
                }
            }
            assert forall|a: int, b: int| 0 <= a < b < after.len() implies name_lt(
                #[trigger] after[a],
                #[trigger] after[b],
            ) by {
                if b < j {
                    assert(after[a] == before[a] && after[b] == before[b]);
                } else if b == j {
                    assert(after[a] == before[a]);
                } else if a == j {
                    assert(after[b] == before[b - 1]);
                } else if a < j {
                    assert(after[a] == before[a] && after[b] == before[b - 1]);
                } else {
                    assert(after[a] == before[a - 1] && after[b] == before[b - 1]);
                }
            }
            assert forall|k: int|
                0 <= k < scripts@.len() && #[trigger] scripts@[k].name@ == name implies scripts@[k]@ == ev by {
                if k < j {
                    assert(after[k] == before[k]);
                    assert(name_lt(before[k], name));
                    lemma_name_order(name, name, name);
                } else if k > j {
                    assert(after[k] == before[k - 1]);
                    assert(name_lt(name, before[k - 1]));
                    lemma_name_order(name, name, name);
                }
            }
            assert forall|k: int|
                0 <= k < scripts@.len() && #[trigger] scripts@[k].name@ != name implies exists|m: int|
                0 <= m < old_scripts.len() && old_scripts[m]@ == scripts@[k]@ by {
                if k < j {
                    assert(old_scripts[k]@ == scripts@[k]@);
                } else {
                    assert(k != j);
                    assert(old_scripts[k - 1]@ == scripts@[k]@);
                }
            }
        }
    }
}

/// Whether a list of scripts holds one of this name.
pub open spec fn has_script(s: Seq<StoredScript>, name: Seq<char>) -> bool {
    script_names(s).contains(name)
}

/// The entry of this name in a list sorted strictly by name.
pub open spec fn script_named(s: Seq<StoredScript>, name: Seq<char>) -> ScriptView {
    s[script_index(s, name)]@
}

/// An index at which a list of scripts holds this name.
pub open spec fn script_index(s: Seq<StoredScript>, name: Seq<char>) -> int {
    choose|i: int| 0 <= i < s.len() && #[trigger] s[i].name@ == name
}

/// The names of the files read in a pass, in order.
pub open spec fn loaded_names(l: Seq<LoadedFile>) -> Seq<Seq<char>> {
    l.map_values(|f: LoadedFile| f.name@)
}

/// The names of the files that failed in a pass, in order.
pub open spec fn failed_names(f: Seq<FailedFile>) -> Seq<Seq<char>> {
    f.map_values(|x: FailedFile| x.name@)
}

/// The file of this name among those read in a pass.
pub open spec fn loaded_named(l: Seq<LoadedFile>, name: Seq<char>) -> LoadedFile {
    l[loaded_index(l, name)]
}

/// An index at which a pass read a file of this name.
pub open spec fn loaded_index(l: Seq<LoadedFile>, name: Seq<char>) -> int {
    choose|i: int| 0 <= i < l.len() && #[trigger] l[i].name@ == name
}

/// The entry a file read in a pass becomes: the previous entry with the new
/// modification time when the content hash is unchanged, else the new text.
pub open spec fn fresh_view(old: Seq<StoredScript>, f: LoadedFile) -> ScriptView {
    if has_script(old, f.name@) && script_named(old, f.name@).hash == text_hash(f.text@) {
        ScriptView { mtime: f.mtime, ..script_named(old, f.name@) }
    } else {
        ScriptView { name: f.name@, text: f.text@, hash: text_hash(f.text@), mtime: f.mtime }
    }
}

/// After a pass the store holds every file that was read, and every failed
/// file that it held before.
pub open spec fn kept_after(
    old: Seq<StoredScript>,
    loaded: Seq<LoadedFile>,
    failed: Seq<FailedFile>,
    name: Seq<char>,
) -> bool {
    loaded_names(loaded).contains(name) || (failed_names(failed).contains(name) && has_script(
        old,
        name,
    ))
}

/// The entry of a name after a pass: a failed file keeps its previous good
/// version, a file that was read becomes its fresh entry.
pub open spec fn entry_after(
    old: Seq<StoredScript>,
    loaded: Seq<LoadedFile>,
    failed: Seq<FailedFile>,
    name: Seq<char>,
) -> ScriptView {
    if failed_names(failed).contains(name) && has_script(old, name) {
        script_named(old, name)
    } else {
        fresh_view(old, loaded_named(loaded, name))
    }
}

/// A name is added when a file of that name was read and none was held.
pub open spec fn is_added(old: Seq<StoredScript>, loaded: Seq<LoadedFile>, name: Seq<char>) -> bool {
    loaded_names(loaded).contains(name) && !has_script(old, name)
}

/// A name is updated when its file was read and its content hash changed.
pub open spec fn is_updated(old: Seq<StoredScript>, loaded: Seq<LoadedFile>, name: Seq<char>) -> bool {
    &&& loaded_names(loaded).contains(name)
    &&& has_script(old, name)
    &&& script_named(old, name).hash != text_hash(loaded_named(loaded, name).text@)
}

/// A name is removed when it was held and its file was neither read nor
/// reported as failed.
pub open spec fn is_removed(
    old: Seq<StoredScript>,
    loaded: Seq<LoadedFile>,
    failed: Seq<FailedFile>,
    name: Seq<char>,
) -> bool {
    &&& has_script(old, name)
    &&& !loaded_names(loaded).contains(name)
    &&& !failed_names(failed).contains(name)
}

/// In a strictly sorted list, the entry found at an index is the entry of
/// its name.
proof fn lemma_script_named(s: Seq<StoredScript>, i: int)
    requires
        ascending(script_names(s)),
        0 <= i < s.len(),
    ensures
        has_script(s, s[i].name@),
        script_named(s, s[i].name@) == s[i]@,
{
    let n = s[i].name@;
    assert(script_names(s)[i] == n);
    assert(exists|j: int| 0 <= j < s.len() && s[j].name@ == n) by {
        assert(0 <= i < s.len() && s[i].name@ == n);
    }
    let j = script_index(s, n);
    assert(script_names(s)[j] == n);
    if j < i {
        assert(name_lt(script_names(s)[j], script_names(s)[i]));
        lemma_name_order(n, n, n);
    } else if j > i {
        assert(name_lt(script_names(s)[i], script_names(s)[j]));
        lemma_name_order(n, n, n);
    }
}

/// With distinct names, the file found at an index is the file of its name.
proof fn lemma_loaded_named(l: Seq<LoadedFile>, i: int)
    requires
        loaded_names(l).no_duplicates(),
        0 <= i < l.len(),
    ensures
        loaded_named(l, l[i].name@) == l[i],
{
    let n = l[i].name@;
    assert(exists|j: int| 0 <= j < l.len() && l[j].name@ == n) by {
        assert(0 <= i < l.len() && l[i].name@ == n);
    }
    let j = loaded_index(l, n);
    if j != i {
        assert(loaded_names(l)[j] == loaded_names(l)[i]);
    }
}

/// Every entry's hash is the FNV-1a hash of its text.
pub open spec fn hashes_match(s: Seq<StoredScript>) -> bool {
    forall|k: int| 0 <= k < s.len() ==> #[trigger] s[k].hash == text_hash(s[k].text@)
}

/// The entry held under a name carries the hash of its text when every
/// entry does.
proof fn lemma_named_hash(s: Seq<StoredScript>, name: Seq<char>)
    requires
        hashes_match(s),
        has_script(s, name),
    ensures
        script_named(s, name).hash == text_hash(script_named(s, name).text),
{
    let j = choose|j: int| 0 <= j < script_names(s).len() && script_names(s)[j] == name;
    assert(s[j].name@ == name);
    let i = script_index(s, name);
    assert(0 <= i < s.len());
    assert(s[i].hash == text_hash(s[i].text@));
}

/// A pass keeps every entry's hash equal to the hash of its text: a fresh
/// entry is hashed from the text read, a kept one keeps text and hash.
pub proof fn lemma_pass_keeps_hashes(
    new: Seq<StoredScript>,
    old: Seq<StoredScript>,
    loaded: Seq<LoadedFile>,
    failed: Seq<FailedFile>,
)
    requires
        hashes_match(old),
        entries_after_pass(new, old, loaded, failed),
    ensures
        hashes_match(new),
{
    assert forall|k: int| 0 <= k < new.len() implies #[trigger] new[k].hash == text_hash(new[k].text@) by {
        let n = new[k].name@;
        assert(new[k]@ == entry_after(old, loaded, failed, n));
        if failed_names(failed).contains(n) && has_script(old, n) {
            lemma_named_hash(old, n);
        } else {
            let f = loaded_named(loaded, n);
            if has_script(old, f.name@) && script_named(old, f.name@).hash == text_hash(f.text@) {
                lemma_named_hash(old, f.name@);
            }
        }
    }
}

/// Position of the entry of this name, if any.
fn find_script(s: &Vec<StoredScript>, name: &str) -> (r: Option<usize>)
    ensures
        match r {
            Some(i) => i < s@.len() && s@[i as int].name@ == name@,
            None => !has_script(s@, name@),
        },
{
    let mut k: usize = 0;
    while k < s.len()
        invariant
            k <= s@.len(),
            forall|j: int| 0 <= j < k ==> #[trigger] s@[j].name@ != name@,
        decreases s@.len() - k,
    {
        if name_order(s[k].name.as_str(), name) == NameOrder::Same {
            return Some(k);
        }
        k = k + 1;
    }
    proof {
        if has_script(s@, name@) {
            let j = choose|j: int| 0 <= j < s@.len() && script_names(s@)[j] == name@;
            assert(s@[j].name@ != name@);
        }
    }
    None
}

/// Whether a failed file of this name was reported.
fn lists_failed(failed: &Vec<FailedFile>, name: &str) -> (r: bool)
    ensures
        r == failed_names(failed@).contains(name@),
{
    let mut k: usize = 0;
    while k < failed.len()
        invariant
            k <= failed@.len(),
            forall|j: int| 0 <= j < k ==> #[trigger] failed@[j].name@ != name@,
        decreases failed@.len() - k,
    {
        if name_order(failed[k].name.as_str(), name) == NameOrder::Same {
            assert(failed_names(failed@)[k as int] == name@);
            return true;
        }
        k = k + 1;
    }
    proof {
        if failed_names(failed@).contains(name@) {
            let j = choose|j: int| 0 <= j < failed@.len() && failed_names(failed@)[j] == name@;
            assert(failed@[j].name@ != name@);
        }
    }
    false
}

/// Some file at index `from` or later was read under this name.
pub open spec fn read_from(l: Seq<LoadedFile>, from: int, name: Seq<char>) -> bool {
    exists|j: int| from <= j < l.len() && #[trigger] l[j].name@ == name
}

/// Turn the files read in a pass into fresh entries, and list which names
/// are new and which changed.
fn take_loaded(old: &Vec<StoredScript>, loaded: Vec<LoadedFile>) -> (r: (
    Vec<StoredScript>,
    Vec<String>,
    Vec<String>,
))
    requires
        ascending(script_names(old@)),
        loaded_names(loaded@).no_duplicates(),
    ensures
        ascending(script_names(r.0@)),
        forall|x: Seq<char>| #[trigger]
            script_names(r.0@).contains(x) <==> loaded_names(loaded@).contains(x),
        forall|k: int|
            0 <= k < r.0@.len() ==> #[trigger] r.0@[k]@ == fresh_view(
                old@,
                loaded_named(loaded@, r.0@[k].name@),
            ),
        ascending(string_views(r.1@)),
        forall|x: Seq<char>| #[trigger] string_views(r.1@).contains(x) <==> is_added(old@, loaded@, x),
        ascending(string_views(r.2@)),
        forall|x: Seq<char>| #[trigger]
            string_views(r.2@).contains(x) <==> is_updated(old@, loaded@, x),
{
    let ghost orig = loaded@;
    let mut rest = loaded;
    let mut fresh: Vec<StoredScript> = Vec::new();
    let mut added: Vec<String> = Vec::new();
    let mut updated: Vec<String> = Vec::new();
    while rest.len() > 0
        invariant
            rest@.len() <= orig.len(),
            rest@ == orig.take(rest@.len() as int),
            loaded_names(orig).no_duplicates(),
            ascending(script_names(old@)),
            ascending(script_names(fresh@)),
            forall|x: Seq<char>| #[trigger]
                script_names(fresh@).contains(x) <==> read_from(orig, rest@.len() as int, x),
            forall|k: int|
                0 <= k < fresh@.len() ==> #[trigger] fresh@[k]@ == fresh_view(
                    old@,
                    loaded_named(orig, fresh@[k].name@),
                ),
            ascending(string_views(added@)),
            forall|x: Seq<char>| #[trigger]
                string_views(added@).contains(x) <==> (read_from(orig, rest@.len() as int, x)
                    && !has_script(old@, x)),
            ascending(string_views(updated@)),
            forall|x: Seq<char>| #[trigger]
                string_views(updated@).contains(x) <==> (read_from(orig, rest@.len() as int, x)
                    && has_script(old@, x) && script_named(old@, x).hash != text_hash(
                    loaded_named(orig, x).text@,
                )),
        decreases rest@.len(),
    {
        let ghost i = rest@.len() - 1;
        let f = rest.pop().unwrap();
        let ghost fv = f;
        proof {
            assert(fv == orig[i]);
            lemma_loaded_named(orig, i);
            assert forall|x: Seq<char>| read_from(orig, i, x) <==> (read_from(orig, i + 1, x) || x == fv.name@) by {
                if read_from(orig, i, x) {
                    let j = choose|j: int| i <= j < orig.len() && #[trigger] orig[j].name@ == x;
                    if j > i {
                        assert(read_from(orig, i + 1, x));
                    }
                }
                if read_from(orig, i + 1, x) {
                    let j = choose|j: int| i + 1 <= j < orig.len() && #[trigger] orig[j].name@ == x;
                    assert(read_from(orig, i, x));
                }
                if x == fv.name@ {
                    assert(orig[i].name@ == x);
                }
            }
            assert(!read_from(orig, i + 1, fv.name@)) by {
                if read_from(orig, i + 1, fv.name@) {
                    let j = choose|j: int| i + 1 <= j < orig.len() && #[trigger] orig[j].name@ == fv.name@;
                    assert(loaded_names(orig)[j] == loaded_names(orig)[i]);
                }
            }
            assert(rest@ == orig.take(i));
        }
        let h = hash_text(f.text.as_str());
        let LoadedFile { name, text, mtime } = f;
        let ghost before = fresh@;
        match find_script(old, name.as_str()) {
            None => {
                insert_name(&mut added, name.clone());
                upsert(&mut fresh, StoredScript { name, text, hash: h, mtime });
            },
            Some(k) => {
                proof {
                    lemma_script_named(old@, k as int);
                }
                if old[k].hash != h {
                    insert_name(&mut updated, name.clone());
                    upsert(&mut fresh, StoredScript { name, text, hash: h, mtime });
                } else {
                    let mut kept = old[k].duplicate();
                    kept.mtime = mtime;
                    upsert(&mut fresh, kept);
                }
            },
        }
        proof {
            assert forall|k: int|
                0 <= k < fresh@.len() implies #[trigger] fresh@[k]@ == fresh_view(
                    old@,
                    loaded_named(orig, fresh@[k].name@),
                ) by {
                if fresh@[k].name@ != fv.name@ {
                    let m = choose|m: int| 0 <= m < before.len() && before[m]@ == fresh@[k]@;
                    assert(before[m]@ == fresh_view(old@, loaded_named(orig, before[m].name@)));
                }
            }
        }
    }
    proof {
        assert forall|x: Seq<char>| read_from(orig, 0, x) <==> loaded_names(orig).contains(x) by {
            if read_from(orig, 0, x) {
                let j = choose|j: int| 0 <= j < orig.len() && #[trigger] orig[j].name@ == x;
                assert(loaded_names(orig)[j] == x);
            }
            if loaded_names(orig).contains(x) {
                let j = choose|j: int| 0 <= j < orig.len() && loaded_names(orig)[j] == x;
                assert(orig[j].name@ == x);
            }
        }
    }
    (fresh, added, updated)
}

/// A held script at an index below `upto` has this name.
pub open spec fn held_below(s: Seq<StoredScript>, upto: int, name: Seq<char>) -> bool {
    exists|j: int| 0 <= j < upto && #[trigger] s[j].name@ == name
}

/// A failed file at an index below `upto` has this name.
pub open spec fn failed_below(f: Seq<FailedFile>, upto: int, name: Seq<char>) -> bool {
    exists|j: int| 0 <= j < upto && #[trigger] f[j].name@ == name
}

/// The names that were held and are now neither read nor failed, sorted.
fn gone_names(old: &Vec<StoredScript>, fresh: &Vec<StoredScript>, failed: &Vec<FailedFile>) -> (removed:
    Vec<String>)
    requires
        ascending(script_names(old@)),
    ensures
        ascending(string_views(removed@)),
        forall|x: Seq<char>| #[trigger]
            string_views(removed@).contains(x) <==> (has_script(old@, x) && !has_script(fresh@, x)
                && !failed_names(failed@).contains(x)),
{
    let mut removed: Vec<String> = Vec::new();
    let mut k: usize = 0;
    while k < old.len()
        invariant
            k <= old@.len(),
            ascending(script_names(old@)),
            ascending(string_views(removed@)),
            forall|x: Seq<char>| #[trigger]
                string_views(removed@).contains(x) <==> (held_below(old@, k as int, x) && !has_script(
                    fresh@,
                    x,
                ) && !failed_names(failed@).contains(x)),
        decreases old@.len() - k,
    {
        let ghost n = old@[k as int].name@;
        proof {
            assert forall|x: Seq<char>| held_below(old@, k + 1, x) <==> (held_below(old@, k as int, x) || x == n) by {
                if held_below(old@, k + 1, x) {
                    let j = choose|j: int| 0 <= j < k + 1 && #[trigger] old@[j].name@ == x;
                    if j < k {
                        assert(held_below(old@, k as int, x));
                    }
                }
                if held_below(old@, k as int, x) {
                    let j = choose|j: int| 0 <= j < k && #[trigger] old@[j].name@ == x;
                    assert(held_below(old@, k + 1, x));
                }
                if x == n {
                    assert(old@[k as int].name@ == x);
                }
            }
        }
        let in_fresh = find_script(fresh, old[k].name.as_str());
        let in_failed = lists_failed(failed, old[k].name.as_str());
        proof {
            if let Some(i) = in_fresh {
                assert(script_names(fresh@)[i as int] == n);
            }
        }
        if in_fresh.is_none() && !in_failed {
            let ghost before = string_views(removed@);
            proof {
                assert forall|a: int| 0 <= a < before.len() implies name_lt(#[trigger] before[a], n) by {
                    assert(before.contains(before[a]));
                    let j = choose|j: int| 0 <= j < k && #[trigger] old@[j].name@ == before[a];
                    assert(script_names(old@)[j] == before[a]);
                    assert(script_names(old@)[k as int] == n);
                }
            }
            removed.push(old[k].name.clone());
            proof {
                let after = string_views(removed@);
                assert(after =~= before.push(n));
                assert forall|x: Seq<char>| #[trigger] after.contains(x) <==> (before.contains(x) || x == n) by {
                    if after.contains(x) {
                        let a = choose|a: int| 0 <= a < after.len() && after[a] == x;
                        if a < before.len() {
                            assert(before[a] == x);
                        }
                    }
                    if before.contains(x) {
                        let a = choose|a: int| 0 <= a < before.len() && before[a] == x;
                        assert(after[a] == x);
                    }
                    if x == n {
                        assert(after[before.len() as int] == x);
                    }
                }
            }
        }
        k = k + 1;
    }
    proof {
        assert forall|x: Seq<char>| held_below(old@, old@.len() as int, x) <==> has_script(old@, x) by {
            if held_below(old@, old@.len() as int, x) {
                let j = choose|j: int| 0 <= j < old@.len() && #[trigger] old@[j].name@ == x;
                assert(script_names(old@)[j] == x);
            }
            if has_script(old@, x) {
                let j = choose|j: int| 0 <= j < old@.len() && script_names(old@)[j] == x;
                assert(old@[j].name@ == x);
            }
        }
    }
    removed
}

/// Put the previous version of every failed file that was held back into
/// the fresh entries.
fn keep_failed(held: &Vec<StoredScript>, fresh: &mut Vec<StoredScript>, failed: &Vec<FailedFile>)
    requires
        ascending(script_names(held@)),
        ascending(script_names(old(fresh)@)),
    ensures
        ascending(script_names(final(fresh)@)),
        forall|x: Seq<char>| #[trigger]
            script_names(final(fresh)@).contains(x) <==> (script_names(old(fresh)@).contains(x) || (
            failed_names(failed@).contains(x) && has_script(held@, x))),
        forall|k: int|
            0 <= k < final(fresh)@.len() ==> if failed_names(failed@).contains(
                #[trigger] final(fresh)@[k].name@,
            ) && has_script(held@, final(fresh)@[k].name@) {
                final(fresh)@[k]@ == script_named(held@, final(fresh)@[k].name@)
            } else {
                exists|m: int| 0 <= m < old(fresh)@.len() && old(fresh)@[m]@ == final(fresh)@[k]@
            },
{
    let ghost start = fresh@;
    let mut q: usize = 0;
    while q < failed.len()
        invariant
            q <= failed@.len(),
            ascending(script_names(held@)),
            ascending(script_names(fresh@)),
            forall|x: Seq<char>| #[trigger]
                script_names(fresh@).contains(x) <==> (script_names(start).contains(x) || (
                failed_below(failed@, q as int, x) && has_script(held@, x))),
            forall|k: int|
                0 <= k < fresh@.len() ==> if failed_below(failed@, q as int, #[trigger] fresh@[k].name@)
                    && has_script(held@, fresh@[k].name@) {
                    fresh@[k]@ == script_named(held@, fresh@[k].name@)
                } else {
                    exists|m: int| 0 <= m < start.len() && start[m]@ == fresh@[k]@
                },
        decreases failed@.len() - q,
    {
        let ghost n = failed@[q as int].name@;
        proof {
            assert forall|x: Seq<char>| failed_below(failed@, q + 1, x) <==> (failed_below(failed@, q as int, x) || x == n) by {
                if failed_below(failed@, q + 1, x) {
                    let j = choose|j: int| 0 <= j < q + 1 && #[trigger] failed@[j].name@ == x;
                    if j < q {
                        assert(failed_below(failed@, q as int, x));
                    }
                }
                if failed_below(failed@, q as int, x) {
                    let j = choose|j: int| 0 <= j < q && #[trigger] failed@[j].name@ == x;
                    assert(failed_below(failed@, q + 1, x));
                }
                if x == n {
                    assert(failed@[q as int].name@ == x);
                }
            }
        }
        match find_script(held, failed[q].name.as_str()) {
            Some(i) => {
                proof {
                    lemma_script_named(held@, i as int);
                }
                let ghost before = fresh@;
                upsert(fresh, held[i].duplicate());
                proof {
                    assert forall|k: int|
                        0 <= k < fresh@.len() implies if failed_below(
                            failed@,
                            q + 1,
                            #[trigger] fresh@[k].name@,
                        ) && has_script(held@, fresh@[k].name@) {
                            fresh@[k]@ == script_named(held@, fresh@[k].name@)
                        } else {
                            exists|m: int| 0 <= m < start.len() && start[m]@ == fresh@[k]@
                        } by {
                        if fresh@[k].name@ != n {
                            let m = choose|m: int| 0 <= m < before.len() && before[m]@ == fresh@[k]@;
                            assert(before[m].name@ == fresh@[k].name@);
                        }
                    }
                }
            },
            None => {},
        }
        q = q + 1;
    }
    proof {
        assert forall|x: Seq<char>| failed_below(failed@, failed@.len() as int, x) <==> failed_names(failed@).contains(x) by {
            if failed_below(failed@, failed@.len() as int, x) {
                let j = choose|j: int| 0 <= j < failed@.len() && #[trigger] failed@[j].name@ == x;
                assert(failed_names(failed@)[j] == x);
            }
            if failed_names(failed@).contains(x) {
                let j = choose|j: int| 0 <= j < failed@.len() && failed_names(failed@)[j] == x;
                assert(failed@[j].name@ == x);
            }
        }
    }
}

/// Where a stable insertion puts a failed file of this name: behind every
/// entry that does not sort after it, counting from the back.
pub open spec fn insertion_point(s: Seq<FailedFile>, name: Seq<char>) -> int
    decreases s.len(),
{
    if s.len() == 0 {
        0
    } else if name_lt(name, s.last().name@) {
        insertion_point(s.drop_last(), name)
    } else {
        s.len() as int
    }
}

/// The failed files stably sorted by name (insertion sort: files of equal
/// names keep their order).
pub open spec fn sorted_failed(s: Seq<FailedFile>) -> Seq<FailedFile>
    decreases s.len(),
{
    if s.len() == 0 {
        s
    } else {
        let t = sorted_failed(s.drop_last());
        t.insert(insertion_point(t, s.last().name@), s.last())
    }
}

proof fn lemma_insertion_point_bounds(s: Seq<FailedFile>, name: Seq<char>)
    ensures
        0 <= insertion_point(s, name) <= s.len(),
    decreases s.len(),
{
    if s.len() > 0 {
        lemma_insertion_point_bounds(s.drop_last(), name);
    }
}

proof fn lemma_sorted_failed_len(s: Seq<FailedFile>)
    ensures
        sorted_failed(s).len() == s.len(),
    decreases s.len(),
{
    if s.len() > 0 {
        lemma_sorted_failed_len(s.drop_last());
        lemma_insertion_point_bounds(sorted_failed(s.drop_last()), s.last().name@);
    }
}

/// Sort failed files by name, stably.
fn sort_failed_files(failed: Vec<FailedFile>) -> (r: Vec<FailedFile>)
    ensures
        r@ == sorted_failed(failed@),
{
    let ghost orig = failed@;
    let mut rest = failed;
    let mut out: Vec<FailedFile> = Vec::new();
    let ghost mut done: int = 0;
    while rest.len() > 0
        invariant
            0 <= done <= orig.len(),
            rest@ == orig.skip(done),
            out@ == sorted_failed(orig.take(done)),
        decreases rest@.len(),
    {
        let f = rest.remove(0);
        proof {
            assert(f == orig[done]);
            lemma_sorted_failed_len(orig.take(done));
        }
        let mut j = out.len();
        proof {
            assert(out@.take(out@.len() as int) =~= out@);
        }
        while j > 0 && name_order(f.name.as_str(), out[j - 1].name.as_str()) == NameOrder::Before
            invariant
                j <= out@.len(),
                insertion_point(out@, f.name@) == insertion_point(out@.take(j as int), f.name@),
            decreases j,
        {
            proof {
                assert(out@.take(j as int).drop_last() =~= out@.take(j - 1));
            }
            j = j - 1;
        }
        proof {
            assert(out@.take(out@.len() as int) =~= out@);
            assert(insertion_point(out@.take(j as int), f.name@) == j);
            assert(orig.take(done + 1).drop_last() =~= orig.take(done));
            assert(rest@ =~= orig.skip(done + 1));
            done = done + 1;
        }
        out.insert(j, f);
    }
    proof {
        assert(orig.take(done) =~= orig);
    }
    out
}

impl FailedFile {
    /// A copy of this entry.
    pub fn duplicate(&self) -> (r: Self)
        ensures
            r == *self,
    {
        FailedFile { name: self.name.clone(), reason: self.reason.clone() }
    }
}

/// What a directory pass saw.
#[derive(Debug, Clone, Default, PartialEq, Eq)]
pub struct ScanReport {
    /// Newly discovered scripts.
    pub added: Vec<String>,
    /// Scripts whose content hash changed.
    pub updated: Vec<String>,
    /// Scripts whose files disappeared.
    pub removed: Vec<String>,
    /// Files that failed to load (their previous versions, if any, stay).
    pub failed: Vec<FailedFile>,
}

/// Two reports list the same things.
pub open spec fn same_report(a: ScanReport, b: ScanReport) -> bool {
    &&& a.added@ == b.added@
    &&& a.updated@ == b.updated@
    &&& a.removed@ == b.removed@
    &&& a.failed@ == b.failed@
}

fn copy_names(v: &Vec<String>) -> (r: Vec<String>)
    ensures
        r@ == v@,
{
    let mut r: Vec<String> = Vec::new();
    let mut k: usize = 0;
    while k < v.len()
        invariant
            k <= v@.len(),
            r@ == v@.take(k as int),
        decreases v@.len() - k,
    {
        r.push(v[k].clone());
        proof {
            assert(v@.take(k + 1) =~= v@.take(k as int).push(v@[k as int]));
        }
        k = k + 1;
    }
    proof {
        assert(v@.take(v@.len() as int) =~= v@);
    }
    r
}

fn copy_failed(v: &Vec<FailedFile>) -> (r: Vec<FailedFile>)
    ensures
        r@ == v@,
{
    let mut r: Vec<FailedFile> = Vec::new();
    let mut k: usize = 0;
    while k < v.len()
        invariant
            k <= v@.len(),
            r@ == v@.take(k as int),
        decreases v@.len() - k,
    {
        r.push(v[k].duplicate());
        proof {
            assert(v@.take(k + 1) =~= v@.take(k as int).push(v@[k as int]));
        }
        k = k + 1;
    }
    proof {
        assert(v@.take(v@.len() as int) =~= v@);
    }
    r
}

impl ScanReport {
    /// A copy of this report.
    pub fn duplicate(&self) -> (r: Self)
        ensures
            same_report(r, *self),
    {
        ScanReport {
            added: copy_names(&self.added),
            updated: copy_names(&self.updated),
            removed: copy_names(&self.removed),
            failed: copy_failed(&self.failed),
        }
    }
}

/// The report of a pass over `loaded` and `failed` against the scripts held
/// before: each list holds exactly its names, sorted, and the failed files
/// are stably sorted by name.
pub open spec fn report_of_pass(
    r: ScanReport,
    old: Seq<StoredScript>,
    loaded: Seq<LoadedFile>,
    failed: Seq<FailedFile>,
) -> bool {
    &&& ascending(string_views(r.added@))
    &&& forall|x: Seq<char>| #[trigger] string_views(r.added@).contains(x) <==> is_added(old, loaded, x)
    &&& ascending(string_views(r.updated@))
    &&& forall|x: Seq<char>| #[trigger]
        string_views(r.updated@).contains(x) <==> is_updated(old, loaded, x)
    &&& ascending(string_views(r.removed@))
    &&& forall|x: Seq<char>| #[trigger]
        string_views(r.removed@).contains(x) <==> is_removed(old, loaded, failed, x)
    &&& r.failed@ == sorted_failed(failed)
}

/// The scripts held after a pass: sorted by name, exactly the names kept,
/// each with its entry after the pass.
pub open spec fn entries_after_pass(
    new: Seq<StoredScript>,
    old: Seq<StoredScript>,
    loaded: Seq<LoadedFile>,
    failed: Seq<FailedFile>,
) -> bool {
    &&& ascending(script_names(new))
    &&& forall|x: Seq<char>| #[trigger] script_names(new).contains(x) <==> kept_after(old, loaded, failed, x)
    &&& forall|k: int|
        0 <= k < new.len() ==> #[trigger] new[k]@ == entry_after(old, loaded, failed, new[k].name@)
}

/// The files of one directory pass: those read and those that failed.
#[derive(Debug, PartialEq, Eq)]
pub struct DirListing {
    /// Files read successfully (distinct names: one directory).
    pub loaded: Vec<LoadedFile>,
    /// Files that could not be read.
    pub failed: Vec<FailedFile>,
}

/// A listing of one directory: each entry is listed once, so the files read
/// have distinct names and no file is both read and failed.
pub open spec fn one_directory(l: DirListing) -> bool {
    &&& loaded_names(l.loaded@).no_duplicates()
    &&& forall|x: Seq<char>| !(loaded_names(l.loaded@).contains(x) && failed_names(l.failed@).contains(x))
}

/// Apply one directory pass to the scripts held before it.
fn apply_pass(old: &Vec<StoredScript>, listing: DirListing) -> (r: (Vec<StoredScript>, ScanReport))
    requires
        ascending(script_names(old@)),
        loaded_names(listing.loaded@).no_duplicates(),
    ensures
        entries_after_pass(r.0@, old@, listing.loaded@, listing.failed@),
        report_of_pass(r.1, old@, listing.loaded@, listing.failed@),
{
    let DirListing { loaded, failed } = listing;
    let ghost lv = loaded@;
    let (mut fresh, added, updated) = take_loaded(old, loaded);
    let ghost taken = fresh@;
    let removed = gone_names(old, &fresh, &failed);
    keep_failed(old, &mut fresh, &failed);
    proof {
        assert forall|k: int|
            0 <= k < fresh@.len() implies #[trigger] fresh@[k]@ == entry_after(
                old@,
                lv,
                failed@,
                fresh@[k].name@,
            ) by {
            let n = fresh@[k].name@;
            if !(failed_names(failed@).contains(n) && has_script(old@, n)) {
                let m = choose|m: int| 0 <= m < taken.len() && taken[m]@ == fresh@[k]@;
                assert(taken[m]@ == fresh_view(old@, loaded_named(lv, taken[m].name@)));
            }
        }
    }
    let failed = sort_failed_files(failed);
    (fresh, ScanReport { added, updated, removed, failed })
}

/// Store-level errors (per-file problems go to the report's failed list).
#[derive(Debug, Clone, PartialEq, Eq)]
pub enum StoreError {
    /// The store directory does not exist.
    DirectoryMissing {
        /// The path that was requested.
        path: String,
    },
    /// Reading the directory failed for another reason (permissions, ...).
    Io {
        /// The path that was requested.
        path: String,
        /// The error message.
        message: String,
    },
}

/// The text of a store error.
pub open spec fn store_error_text(e: StoreError) -> Seq<char> {
    match e {
        StoreError::DirectoryMissing { path } => "script directory does not exist: "@ + path@,
        StoreError::Io { path, message } => "cannot read script directory "@ + path@ + ": "@
            + message@,
    }
}

impl StoreError {
    /// Human-readable description of the error.
    pub fn message(&self) -> (text: String)
        ensures
            text@ == store_error_text(*self),
    {
        match self {
            StoreError::DirectoryMissing { path } => {
                let mut out = String::from_str("script directory does not exist: ");
                out.append(path.as_str());
                out
            },
            StoreError::Io { path, message } => {
                let mut out = String::from_str("cannot read script directory ");
                out.append(path.as_str());
                out.append(": ");
                out.append(message.as_str());
                out
            },
        }
    }
}

/// The scripts of one directory, scanned on demand.
#[derive(Debug)]
pub struct ScriptStore {
    dir: String,
    scripts: Vec<StoredScript>,
    last_report: ScanReport,
}

impl ScriptStore {
    /// The store keeps its scripts sorted strictly by name, each with the
    /// hash of its text.
    pub closed spec fn wf(&self) -> bool {
        &&& ascending(script_names(self.scripts@))
        &&& hashes_match(self.scripts@)
    }

    /// The scripts held, sorted by name.
    pub closed spec fn entries(&self) -> Seq<StoredScript> {
        self.scripts@
    }

    /// The directory the store reads.
    pub closed spec fn dir_view(&self) -> Seq<char> {
        self.dir@
    }

    /// The report of the last pass.
    pub closed spec fn report(&self) -> ScanReport {
        self.last_report
    }

    /// A well-formed store holds its scripts strictly ascending by name, so
    /// no name twice, and every script's hash is the FNV-1a hash of its
    /// text.
    pub proof fn lemma_names_ascending(&self)
        requires
            self.wf(),
        ensures
            ascending(script_names(self.entries())),
            hashes_match(self.entries()),
    {
    }

    /// First scan of a directory, from the result of reading it: a store
    /// that holds every file read, and whose report lists them all as
    /// added. An error reading the directory is handed back.
    pub fn scan(dir: String, listing: Result<DirListing, StoreError>) -> (r: Result<Self, StoreError>)
        requires
            listing matches Ok(l) ==> one_directory(l),
        ensures
            match listing {
                Err(e) => r == Err::<Self, StoreError>(e),
                Ok(l) => r matches Ok(s) && {
                    &&& s.wf()
                    &&& s.dir_view() == dir@
                    &&& entries_after_pass(s.entries(), Seq::empty(), l.loaded@, l.failed@)
                    &&& report_of_pass(s.report(), Seq::empty(), l.loaded@, l.failed@)
                },
            },
    {
        match listing {
            Err(e) => Err(e),
            Ok(l) => {
                let none: Vec<StoredScript> = Vec::new();
                let ghost lv = l.loaded@;
                let ghost fv = l.failed@;
                let (scripts, report) = apply_pass(&none, l);
                proof {
                    lemma_pass_keeps_hashes(scripts@, none@, lv, fv);
                }
                Ok(ScriptStore { dir, scripts, last_report: report })
            },
        }
    }

    /// Apply a new pass over the directory: changed content (by hash) is
    /// reloaded, gone files are dropped, failed files keep their previous
    /// version. Returns the report, which the store also keeps. An error
    /// reading the directory is handed back and the store is unchanged.
    pub fn refresh(&mut self, listing: Result<DirListing, StoreError>) -> (r: Result<
        ScanReport,
        StoreError,
    >)
        requires
            old(self).wf(),
            listing matches Ok(l) ==> one_directory(l),
        ensures
            final(self).wf(),
            match listing {
                Err(e) => r == Err::<ScanReport, StoreError>(e) && *final(self) == *old(self),
                Ok(l) => r matches Ok(report) && {
                    &&& entries_after_pass(final(self).entries(), old(self).entries(), l.loaded@, l.failed@)
                    &&& report_of_pass(report, old(self).entries(), l.loaded@, l.failed@)
                    &&& same_report(final(self).report(), report)
                    &&& final(self).dir_view() == old(self).dir_view()
                },
            },
    {
        match listing {
            Err(e) => Err(e),
            Ok(l) => {
                let ghost lv = l.loaded@;
                let ghost fv = l.failed@;
                let (scripts, report) = apply_pass(&self.scripts, l);
                proof {
                    lemma_pass_keeps_hashes(scripts@, self.scripts@, lv, fv);
                }
                self.scripts = scripts;
                self.last_report = report.duplicate();
                Ok(report)
            },
        }
    }

    /// Look up a script by file name.
    pub fn get(&self, name: &str) -> (r: Option<&StoredScript>)
        requires
            self.wf(),
        ensures
            match r {
                Some(e) => has_script(self.entries(), name@) && e@ == script_named(self.entries(), name@)
                    && e.name@ == name@ && e.hash == text_hash(e.text@),
                None => !has_script(self.entries(), name@),
            },
    {
        match find_script(&self.scripts, name) {
            Some(i) => {
                proof {
                    lemma_script_named(self.scripts@, i as int);
                }
                Some(&self.scripts[i])
            },
            None => None,
        }
    }

    /// All script names, sorted.
    pub fn names(&self) -> (r: Vec<String>)
        ensures
            string_views(r@) == script_names(self.entries()),
            self.wf() ==> ascending(string_views(r@)),
    {
        let mut r: Vec<String> = Vec::new();
        let mut k: usize = 0;
        while k < self.scripts.len()
            invariant
                k <= self.scripts@.len(),
                string_views(r@) == script_names(self.scripts@.take(k as int)),
            decreases self.scripts@.len() - k,
        {
            let ghost prev = r@;
            r.push(self.scripts[k].name.clone());
            proof {
                let t = self.scripts@.take(k + 1);
                assert(t =~= self.scripts@.take(k as int).push(self.scripts@[k as int]));
                assert(r@ =~= prev.push(self.scripts@[k as int].name));
                assert(string_views(r@) =~= string_views(prev).push(self.scripts@[k as int].name@));
                assert(script_names(t) =~= script_names(self.scripts@.take(k as int)).push(
                    self.scripts@[k as int].name@,
                ));
            }
            k = k + 1;
        }
        proof {
            assert(self.scripts@.take(self.scripts@.len() as int) =~= self.scripts@);
        }
        r
    }

    /// The directory the store reads.
    pub fn dir(&self) -> (r: &str)
        ensures
            r@ == self.dir_view(),
    {
        self.dir.as_str()
    }

    /// The report of the last scan or refresh.
    pub fn last_report(&self) -> (r: &ScanReport)
        ensures
            *r == self.report(),
    {
        &self.last_report
    }

    /// Number of scripts held.
    pub fn len(&self) -> (n: usize)
        ensures
            n == self.entries().len(),
    {
        self.scripts.len()
    }

    /// Whether nothing is held.
    pub fn is_empty(&self) -> (b: bool)
        ensures
            b == (self.entries().len() == 0),
    {
        self.scripts.len() == 0
    }
}

/// Failed files in non-decreasing name order.
pub open spec fn failed_in_order(s: Seq<FailedFile>) -> bool {
    forall|i: int, j: int|
        0 <= i < j < s.len() ==> !name_lt(#[trigger] s[j].name@, #[trigger] s[i].name@)
}

proof fn lemma_insertion_point(t: Seq<FailedFile>, n: Seq<char>)
    requires
        failed_in_order(t),
    ensures
        0 <= insertion_point(t, n) <= t.len(),
        forall|k: int| insertion_point(t, n) <= k < t.len() ==> name_lt(n, #[trigger] t[k].name@),
        forall|k: int| 0 <= k < insertion_point(t, n) ==> !name_lt(n, #[trigger] t[k].name@),
    decreases t.len(),
{
    if t.len() > 0 {
        let d = t.drop_last();
        let last = t.last().name@;
        if name_lt(n, last) {
            assert(failed_in_order(d)) by {
                assert forall|i: int, j: int| 0 <= i < j < d.len() implies !name_lt(
                    #[trigger] d[j].name@,
                    #[trigger] d[i].name@,
                ) by {
                    assert(d[i] == t[i] && d[j] == t[j]);
                }
            }
            lemma_insertion_point(d, n);
            assert forall|k: int| insertion_point(t, n) <= k < t.len() implies name_lt(n, #[trigger] t[k].name@) by {
                if k < t.len() - 1 {
                    assert(d[k] == t[k]);
                }
            }
            assert forall|k: int| 0 <= k < insertion_point(t, n) implies !name_lt(n, #[trigger] t[k].name@) by {
                assert(d[k] == t[k]);
            }
        } else {
            assert forall|k: int| 0 <= k < insertion_point(t, n) implies !name_lt(n, #[trigger] t[k].name@) by {
                let b = t[k].name@;
                if k < t.len() - 1 {
                    assert(!name_lt(t[t.len() - 1].name@, t[k].name@));
                    lemma_name_order(b, last, b);
                    lemma_name_order(n, b, last);
                }
            }
        }
    }
}

/// Stable sorting by name puts the failed files in name order.
pub proof fn lemma_sorted_failed_in_order(s: Seq<FailedFile>)
    ensures
        failed_in_order(sorted_failed(s)),
        sorted_failed(s).len() == s.len(),
    decreases s.len(),
{
    lemma_sorted_failed_len(s);
    if s.len() > 0 {
        let t = sorted_failed(s.drop_last());
        let x = s.last();
        let n = x.name@;
        lemma_sorted_failed_in_order(s.drop_last());
        lemma_insertion_point(t, n);
        let p = insertion_point(t, n);
        let r = t.insert(p, x);
        assert(r == sorted_failed(s));
        assert forall|i: int, j: int| 0 <= i < j < r.len() implies !name_lt(
            #[trigger] r[j].name@,
            #[trigger] r[i].name@,
        ) by {
            if j < p {
                assert(r[i] == t[i] && r[j] == t[j]);
            } else if j == p {
                assert(r[i] == t[i] && r[j] == x);
            } else if i == p {
                assert(r[i] == x && r[j] == t[j - 1]);
                lemma_name_order(n, t[j - 1].name@, n);
            } else if i < p {
                assert(r[i] == t[i] && r[j] == t[j - 1]);
            } else {
                assert(r[i] == t[i - 1] && r[j] == t[j - 1]);
            }
        }
    }
}

/// Every pass reports its failed files in name order.
pub proof fn lemma_report_failed_in_order(
    r: ScanReport,
    old: Seq<StoredScript>,
    loaded: Seq<LoadedFile>,
    failed: Seq<FailedFile>,
)
    requires
        report_of_pass(r, old, loaded, failed),
    ensures
        failed_in_order(r.failed@),
        r.failed@.len() == failed.len(),
{
    lemma_sorted_failed_in_order(failed);
}

/// A file that fails to load keeps the version held before the pass.
pub proof fn lemma_failed_file_keeps_version(
    new: Seq<StoredScript>,
    old: Seq<StoredScript>,
    loaded: Seq<LoadedFile>,
    failed: Seq<FailedFile>,
    name: Seq<char>,
)
    requires
        ascending(script_names(old)),
        entries_after_pass(new, old, loaded, failed),
        failed_names(failed).contains(name),
        has_script(old, name),
    ensures
        has_script(new, name),
        script_named(new, name) == script_named(old, name),
{
    assert(kept_after(old, loaded, failed, name));
    assert(script_names(new).contains(name));
    let k = choose|k: int| 0 <= k < new.len() && script_names(new)[k] == name;
    assert(new[k].name@ == name);
    lemma_script_named(new, k);
}

/// Passing the same directory listing again reports no change and keeps
/// the same scripts, failed files included: no name is added, updated or
/// removed, the same names are held, and each held entry stays as it is.
/// This holds of every listing a scan or refresh accepts.
pub proof fn lemma_same_pass_reports_nothing(
    new: Seq<StoredScript>,
    old: Seq<StoredScript>,
    listing: DirListing,
    name: Seq<char>,
)
    requires
        one_directory(listing),
        entries_after_pass(new, old, listing.loaded@, listing.failed@),
    ensures
        !is_added(new, listing.loaded@, name),
        !is_updated(new, listing.loaded@, name),
        !is_removed(new, listing.loaded@, listing.failed@, name),
        kept_after(new, listing.loaded@, listing.failed@, name) <==> has_script(new, name),
        has_script(new, name) ==> entry_after(new, listing.loaded@, listing.failed@, name)
            == script_named(new, name),
{
    let loaded = listing.loaded@;
    let failed = listing.failed@;
    if has_script(new, name) {
        let k = choose|k: int| 0 <= k < new.len() && script_names(new)[k] == name;
        assert(new[k].name@ == name);
        lemma_script_named(new, k);
        assert(kept_after(old, loaded, failed, name));
        assert(new[k]@ == entry_after(old, loaded, failed, name));
        if loaded_names(loaded).contains(name) {
            assert(!failed_names(failed).contains(name));
            let f = loaded_named(loaded, name);
            let i = choose|i: int| 0 <= i < loaded.len() && loaded_names(loaded)[i] == name;
            assert(loaded[i].name@ == name);
            lemma_loaded_named(loaded, i);
            assert(new[k]@ == fresh_view(old, f));
            assert(new[k]@.hash == text_hash(f.text@));
            assert(new[k]@.mtime == f.mtime);
            assert(entry_after(new, loaded, failed, name) == fresh_view(new, f));
            assert(fresh_view(new, f) == new[k]@);
        }
    }
    if loaded_names(loaded).contains(name) {
        assert(kept_after(old, loaded, failed, name));
        assert(script_names(new).contains(name));
    }
}

} // verus!
