//! Launchable entries and the merge of entries from several sources into one
//! index, deduplicated by a key derived from the command.
use vstd::prelude::*;
use vstd::string::*;

use crate::text::{first_token, token_bounds};

verus! {

/// A named sub-action of an application.
#[derive(Clone)]
pub struct AppAction {
    pub name: String,
    pub command: String,
}

/// One launchable entry.
#[derive(Clone)]
pub struct AppIndex {
    pub command: String,
    pub name: String,
    pub generic_name: Option<String>,
    pub actions: Vec<AppAction>,
}

pub struct AppActionView {
    pub name: Seq<char>,
    pub command: Seq<char>,
}

pub struct AppIndexView {
    pub command: Seq<char>,
    pub name: Seq<char>,
    pub generic_name: Option<Seq<char>>,
    pub actions: Seq<AppActionView>,
}

impl View for AppAction {
    type V = AppActionView;

    open spec fn view(&self) -> AppActionView {
        AppActionView { name: self.name@, command: self.command@ }
    }
}

pub open spec fn opt_view(o: Option<String>) -> Option<Seq<char>> {
    match o {
        Some(s) => Some(s@),
        None => None,
    }
}

impl View for AppIndex {
    type V = AppIndexView;

    open spec fn view(&self) -> AppIndexView {
        AppIndexView {
            command: self.command@,
            name: self.name@,
            generic_name: opt_view(self.generic_name),
            actions: self.actions@.map_values(|a: AppAction| a@),
        }
    }
}

impl AppIndex {
    /// A copy of the entry.
    pub fn copied(&self) -> (r: AppIndex)
        ensures
            r@ == self@,
    {
        let generic_name = match &self.generic_name {
            Some(g) => Some(g.clone()),
            None => None,
        };
        let mut actions: Vec<AppAction> = Vec::new();
        let mut i: usize = 0;
        while i < self.actions.len()
            invariant
                i <= self.actions@.len(),
                actions@.len() == i,
                forall|k: int| 0 <= k < i ==> #[trigger] actions@[k]@ == self.actions@[k]@,
            decreases self.actions.len() - i,
        {
            let a = &self.actions[i];
            actions.push(AppAction { name: a.name.clone(), command: a.command.clone() });
            i += 1;
        }
        let r = AppIndex {
            command: self.command.clone(),
            name: self.name.clone(),
            generic_name,
            actions,
        };
        assert(r@.actions =~= self@.actions);
        r
    }

    /// The entry of an executable found on the search path: its file name as
    /// name, its full path as command, no generic name and no actions.
    pub fn from_executable(file_name: String, full_path: String) -> (r: AppIndex)
        ensures
            r@ == (AppIndexView {
                command: full_path@,
                name: file_name@,
                generic_name: None,
                actions: Seq::<AppActionView>::empty(),
            }),
    {
        let r = AppIndex { command: full_path, name: file_name, generic_name: None, actions: Vec::new() };
        assert(r@.actions =~= Seq::<AppActionView>::empty());
        r
    }
}

/// A file of the search path is indexed when it is a regular file with an
/// execute permission bit set in its `mode`.
pub fn is_executable_file(is_file: bool, mode: u32) -> (r: bool)
    ensures
        r == (is_file && (mode & 0o111u32) != 0),
{
    is_file && (mode & 0o111u32) != 0
}

pub open spec fn entry_views(v: Seq<AppIndex>) -> Seq<AppIndexView> {
    v.map_values(|e: AppIndex| e@)
}

/// The lowercase form of a string.
pub uninterp spec fn lower_of(s: Seq<char>) -> Seq<char>;

/// Relies on `str::to_lowercase`: the result depends on the characters alone.
#[verifier::external_body]
fn lowercase(s: &str) -> (r: String)
    ensures
        r@ == lower_of(s@),
{
    s.to_lowercase()
}

/// Position of the last `/` of `s`, or -1.
pub open spec fn last_slash(s: Seq<char>) -> int
    decreases s.len(),
{
    if s.len() == 0 {
        -1
    } else if s.last() == '/' {
        s.len() - 1
    } else {
        last_slash(s.drop_last())
    }
}

/// Position of the first space of `s`, or its length.
pub open spec fn first_space(s: Seq<char>) -> int
    decreases s.len(),
{
    if s.len() == 0 {
        0
    } else if s[0] == ' ' {
        0
    } else {
        1 + first_space(s.drop_first())
    }
}

proof fn lemma_last_slash_bounds(s: Seq<char>)
    ensures
        -1 <= last_slash(s) < s.len(),
    decreases s.len(),
{
    if s.len() > 0 {
        lemma_last_slash_bounds(s.drop_last());
    }
}

proof fn lemma_first_space_bounds(s: Seq<char>)
    ensures
        0 <= first_space(s) <= s.len(),
    decreases s.len(),
{
    if s.len() > 0 {
        lemma_first_space_bounds(s.drop_first());
    }
}

/// What follows the last `/` of a command.
pub open spec fn file_part(s: Seq<char>) -> Seq<char> {
    s.subrange(last_slash(s) + 1, s.len() as int)
}


/// The identity of a command: the first whitespace-delimited token of its
/// last path segment, in lowercase.
pub open spec fn exec_key(exec: Seq<char>) -> Seq<char> {
    lower_of(first_token(file_part(exec)))
}

/// Position of the first space of `s` at or after `start`, or its length.
pub(crate) fn find_space(s: &str, start: usize) -> (r: usize)
    requires
        start <= s@.len(),
    ensures
        r == start + first_space(s@.subrange(start as int, s@.len() as int)),
        start <= r <= s@.len(),
{
    let ghost t = s@;
    let n = s.unicode_len();
    let ghost rest0 = t.subrange(start as int, n as int);
    let mut end: usize = start;
    while end < n && s.get_char(end) != ' '
        invariant
            t == s@,
            n == t.len(),
            start <= end <= n,
            rest0 == t.subrange(start as int, n as int),
            first_space(rest0) == (end - start) + first_space(t.subrange(end as int, n as int)),
        decreases n - end,
    {
        proof {
            let rest = t.subrange(end as int, n as int);
            assert(rest.drop_first() =~= t.subrange(end as int + 1, n as int));
            assert(rest[0] == t[end as int]);
        }
        end += 1;
    }
    proof {
        let rest = t.subrange(end as int, n as int);
        if end < n {
            assert(rest[0] == t[end as int]);
        }
        lemma_first_space_bounds(rest0);
    }
    end
}

/// The key under which entries with the command `id` are deduplicated.
pub fn get_exec_id(id: &str) -> (r: String)
    ensures
        r@ == exec_key(id@),
{
    let ghost s = id@;
    let n = id.unicode_len();
    let mut start: usize = 0;
    let mut i: usize = 0;
    while i < n
        invariant
            s == id@,
            n == s.len(),
            i <= n,
            start as int == last_slash(s.subrange(0, i as int)) + 1,
        decreases n - i,
    {
        proof {
            assert(s.subrange(0, i as int + 1).drop_last() =~= s.subrange(0, i as int));
        }
        if id.get_char(i) == '/' {
            start = i + 1;
        }
        i += 1;
    }
    proof {
        assert(s.subrange(0, n as int) =~= s);
        lemma_last_slash_bounds(s);
    }
    let (word_start, word_end) = token_bounds(id, start);
    let word = id.substring_char(word_start, word_end);
    lowercase(word)
}

/// An entry that can be launched: it has a name and a command.
pub open spec fn valid_entry(e: AppIndexView) -> bool {
    e.name.len() > 0 && e.command.len() > 0
}

pub open spec fn has_key(m: Seq<AppIndexView>, k: Seq<char>) -> bool {
    exists|j: int| 0 <= j < m.len() && exec_key(#[trigger] m[j].command) == k
}

/// The valid entries of `s`, one per key: for each key the last entry of `s`
/// with that key, listed from the end of `s`.
pub open spec fn kept(s: Seq<AppIndexView>) -> Seq<AppIndexView>
    decreases s.len(),
{
    if s.len() == 0 {
        seq![]
    } else {
        let m = kept(s.drop_first());
        let e = s[0];
        if !valid_entry(e) || has_key(m, exec_key(e.command)) {
            m
        } else {
            m.push(e)
        }
    }
}

/// The index built from description-file entries and search-path entries:
/// one entry per key, the last of the search-path entries followed by the
/// description-file entries, so that description-file entries win; entries
/// keep the order of the input.
pub open spec fn merged(desktop: Seq<AppIndexView>, path: Seq<AppIndexView>) -> Seq<AppIndexView> {
    kept(path + desktop).reverse()
}

/// The valid entries of `s`, in order.
pub open spec fn valid_only(s: Seq<AppIndexView>) -> Seq<AppIndexView> {
    s.filter(|e: AppIndexView| valid_entry(e))
}

/// A search-path entry and a description-file entry with the same key merge
/// into exactly one entry, the description-file one.
pub proof fn lemma_desktop_entry_wins(desktop_entry: AppIndexView, path_entry: AppIndexView)
    requires
        valid_entry(desktop_entry),
        valid_entry(path_entry),
        exec_key(desktop_entry.command) == exec_key(path_entry.command),
    ensures
        merged(seq![desktop_entry], seq![path_entry]) == seq![desktop_entry],
{
    let s = seq![path_entry] + seq![desktop_entry];
    assert(s.drop_first() =~= seq![desktop_entry]);
    assert(seq![desktop_entry].drop_first() =~= Seq::<AppIndexView>::empty());
    let none = Seq::<AppIndexView>::empty();
    assert(kept(none) =~= none);
    assert(!has_key(none, exec_key(desktop_entry.command)));
    let m = kept(seq![desktop_entry]);
    assert(m =~= none.push(desktop_entry));
    assert(m.reverse() =~= m);
    assert(exec_key(m[0].command) == exec_key(path_entry.command));
    assert(has_key(m, exec_key(path_entry.command)));
}

/// No two entries share a key.
pub open spec fn distinct_keys(m: Seq<AppIndexView>) -> bool {
    forall|a: int, b: int|
        0 <= a < b < m.len() ==> exec_key(#[trigger] m[a].command) != exec_key(#[trigger] m[b].command)
}

/// Every entry has a name and a command.
pub open spec fn all_valid(m: Seq<AppIndexView>) -> bool {
    forall|a: int| 0 <= a < m.len() ==> valid_entry(#[trigger] m[a])
}

/// The entries gathered so far and their keys.
struct Gathered {
    entries: Vec<AppIndex>,
    keys: Vec<String>,
}

impl Gathered {
    spec fn inv(&self) -> bool {
        &&& self.keys@.len() == self.entries@.len()
        &&& forall|j: int|
            0 <= j < self.keys@.len() ==> #[trigger] self.keys@[j]@ == exec_key(
                self.entries@[j]@.command,
            )
        &&& distinct_keys(entry_views(self.entries@))
        &&& all_valid(entry_views(self.entries@))
    }

    /// Adds `e` unless it is invalid or its key is already present.
    fn offer(&mut self, e: AppIndex)
        requires
            old(self).inv(),
        ensures
            final(self).inv(),
            entry_views(final(self).entries@) == if !valid_entry(e@) || has_key(
                entry_views(old(self).entries@),
                exec_key(e@.command),
            ) {
                entry_views(old(self).entries@)
            } else {
                entry_views(old(self).entries@).push(e@)
            },
    {
        let ghost m = entry_views(self.entries@);
        if e.name.as_str().is_empty() || e.command.as_str().is_empty() {
            return;
        }
        let key = get_exec_id(e.command.as_str());
        let mut j: usize = 0;
        while j < self.keys.len()
            invariant
                self.inv(),
                m == entry_views(self.entries@),
                j <= self.keys@.len(),
                key@ == exec_key(e@.command),
                forall|a: int| 0 <= a < j ==> exec_key(#[trigger] m[a].command) != key@,
            decreases self.keys.len() - j,
        {
            if self.keys[j] == key {
                proof {
                    assert(m[j as int].command == self.entries@[j as int]@.command);
                    assert(has_key(m, key@));
                }
                return;
            }
            assert(m[j as int].command == self.entries@[j as int]@.command);
            j += 1;
        }
        proof {
            if has_key(m, key@) {
                let a = choose|a: int| 0 <= a < m.len() && exec_key(#[trigger] m[a].command) == key@;
                assert(exec_key(m[a].command) != key@);
            }
        }
        let ghost ev = e@;
        self.entries.push(e);
        self.keys.push(key);
        proof {
            let m2 = entry_views(self.entries@);
            assert(m2 =~= m.push(ev));
            assert forall|jj: int| 0 <= jj < self.keys@.len() implies #[trigger] self.keys@[jj]@
                == exec_key(self.entries@[jj]@.command) by {
                if jj < m.len() {
                    assert(old(self).keys@[jj]@ == exec_key(old(self).entries@[jj]@.command));
                }
            }
            assert forall|a: int, b: int| 0 <= a < b < m2.len() implies exec_key(
                #[trigger] m2[a].command,
            ) != exec_key(#[trigger] m2[b].command) by {
                if b < m.len() {
                    assert(m2[a] == m[a] && m2[b] == m[b]);
                } else {
                    assert(m2[a] == m[a]);
                }
            }
            assert forall|a: int| 0 <= a < m2.len() implies valid_entry(#[trigger] m2[a]) by {
                if a < m.len() {
                    assert(m2[a] == m[a]);
                }
            }
        }
    }
}

/// Gathers the entries of the index from its sources.
pub struct Indexer {}

impl Default for Indexer {
    fn default() -> (r: Self)
        ensures
            r == (Indexer {}),
    {
        Indexer {}
    }
}

impl Indexer {
    /// The index from description-file entries and, where given, search-path
    /// entries. Without search-path entries every valid description-file entry
    /// is kept, in order; with them, entries are deduplicated by key.
    pub fn index(&self, desktop: Vec<AppIndex>, path: Option<Vec<AppIndex>>) -> (r: Vec<AppIndex>)
        ensures
            path is None ==> entry_views(r@) == valid_only(entry_views(desktop@)),
            path is Some ==> entry_views(r@) == merged(entry_views(desktop@), entry_views(path->0@)),
    {
        match path {
            Some(p) => build_index(desktop, p),
            None => valid_entries(desktop),
        }
    }
}

/// Builds the index from description-file entries and search-path entries.
///
/// Entries without a name or a command are dropped, and entries are
/// deduplicated by `get_exec_id` of their command: a description-file entry
/// wins over a search-path entry with the same key, since it carries richer
/// metadata.
pub fn build_index(desktop: Vec<AppIndex>, path: Vec<AppIndex>) -> (r: Vec<AppIndex>)
    ensures
        entry_views(r@) == merged(entry_views(desktop@), entry_views(path@)),
        distinct_keys(entry_views(r@)),
        all_valid(entry_views(r@)),
{
    let ghost desktop_views = entry_views(desktop@);
    let ghost path_views = entry_views(path@);
    let mut desktop = desktop;
    let mut path = path;
    let mut acc = Gathered { entries: Vec::new(), keys: Vec::new() };
    assert(entry_views(acc.entries@) =~= seq![]);
    assert(desktop_views.subrange(desktop_views.len() as int, desktop_views.len() as int) =~= seq![]);
    while desktop.len() > 0
        invariant
            acc.inv(),
            entry_views(desktop@) == desktop_views.subrange(0, desktop@.len() as int),
            desktop@.len() <= desktop_views.len(),
            entry_views(acc.entries@) == kept(desktop_views.subrange(desktop@.len() as int, desktop_views.len() as int)),
        decreases desktop.len(),
    {
        let ghost i = desktop@.len() - 1;
        let ghost before = desktop@;
        let e = desktop.pop().unwrap();
        proof {
            assert(entry_views(before)[i] == before[i]@);
            assert(entry_views(desktop@) =~= desktop_views.subrange(0, i));
            assert(e@ == desktop_views[i]);
            let tail = desktop_views.subrange(i, desktop_views.len() as int);
            assert(tail.drop_first() =~= desktop_views.subrange(i + 1, desktop_views.len() as int));
            assert(tail[0] == desktop_views[i]);
        }
        acc.offer(e);
    }
    assert(path_views.subrange(path_views.len() as int, path_views.len() as int) + desktop_views =~= desktop_views);
    assert(desktop_views.subrange(0, desktop_views.len() as int) =~= desktop_views);
    while path.len() > 0
        invariant
            acc.inv(),
            entry_views(path@) == path_views.subrange(0, path@.len() as int),
            path@.len() <= path_views.len(),
            entry_views(acc.entries@) == kept(
                path_views.subrange(path@.len() as int, path_views.len() as int) + desktop_views,
            ),
        decreases path.len(),
    {
        let ghost i = path@.len() - 1;
        let ghost before = path@;
        let e = path.pop().unwrap();
        proof {
            assert(entry_views(before)[i] == before[i]@);
            assert(entry_views(path@) =~= path_views.subrange(0, i));
            assert(e@ == path_views[i]);
            let tail = path_views.subrange(i, path_views.len() as int) + desktop_views;
            assert(tail.drop_first() =~= path_views.subrange(i + 1, path_views.len() as int) + desktop_views);
            assert(tail[0] == path_views[i]);
        }
        acc.offer(e);
    }
    assert(path_views.subrange(0, path_views.len() as int) =~= path_views);
    let ghost k = entry_views(acc.entries@);
    let r = reversed(acc.entries);
    proof {
        let rv = entry_views(r@);
        assert forall|a: int, b: int| 0 <= a < b < rv.len() implies exec_key(
            #[trigger] rv[a].command,
        ) != exec_key(#[trigger] rv[b].command) by {
            assert(rv[a] == k[k.len() - 1 - a] && rv[b] == k[k.len() - 1 - b]);
        }
        assert forall|a: int| 0 <= a < rv.len() implies valid_entry(#[trigger] rv[a]) by {
            assert(rv[a] == k[k.len() - 1 - a]);
        }
    }
    r
}

/// The entries of `v` in reverse order.
fn reversed(v: Vec<AppIndex>) -> (r: Vec<AppIndex>)
    ensures
        entry_views(r@) == entry_views(v@).reverse(),
{
    let ghost s = entry_views(v@);
    let mut v = v;
    let mut out: Vec<AppIndex> = Vec::new();
    assert(entry_views(out@) =~= s.subrange(s.len() as int, s.len() as int).reverse());
    while v.len() > 0
        invariant
            v@.len() <= s.len(),
            entry_views(v@) == s.subrange(0, v@.len() as int),
            entry_views(out@) == s.subrange(v@.len() as int, s.len() as int).reverse(),
        decreases v.len(),
    {
        let ghost i = v@.len() - 1;
        let ghost before = v@;
        let ghost out_before = entry_views(out@);
        let e = v.pop().unwrap();
        proof {
            assert(entry_views(before)[i] == before[i]@);
            assert(entry_views(v@) =~= s.subrange(0, i));
        }
        out.push(e);
        proof {
            assert(entry_views(out@) =~= out_before.push(s[i]));
            assert(s.subrange(i, s.len() as int).reverse() =~= s.subrange(
                i + 1,
                s.len() as int,
            ).reverse().push(s[i]));
        }
    }
    assert(s.subrange(0, s.len() as int) =~= s);
    out
}

/// The valid entries of `v`, in order.
fn valid_entries(v: Vec<AppIndex>) -> (r: Vec<AppIndex>)
    ensures
        entry_views(r@) == valid_only(entry_views(v@)),
{
    let ghost s = entry_views(v@);
    let mut rest = reversed(v);
    assert(entry_views(rest@).len() == rest@.len());
    let mut out: Vec<AppIndex> = Vec::new();
    assert(entry_views(out@) =~= valid_only(s.subrange(0, 0))) by {
        reveal(Seq::filter);
    }
    assert(s.subrange(0, s.len() as int) =~= s);
    while rest.len() > 0
        invariant
            rest@.len() <= s.len(),
            entry_views(rest@) == s.subrange(s.len() - rest@.len(), s.len() as int).reverse(),
            entry_views(out@) == valid_only(s.subrange(0, s.len() - rest@.len())),
        decreases rest.len(),
    {
        let ghost i = s.len() - rest@.len();
        let ghost before = rest@;
        let ghost out_before = entry_views(out@);
        let e = rest.pop().unwrap();
        proof {
            assert(entry_views(before)[before.len() - 1] == before[before.len() - 1]@);
            assert(entry_views(rest@) =~= entry_views(before).drop_last());
            assert(s.subrange(i, s.len() as int).reverse().drop_last() =~= s.subrange(
                i + 1,
                s.len() as int,
            ).reverse());
            assert(entry_views(before)[before.len() - 1] == s.subrange(i, s.len() as int).reverse()[before.len() - 1]);
            assert(e@ == s[i]);
            assert(s.subrange(0, i + 1).drop_last() =~= s.subrange(0, i));
            reveal(Seq::filter);
        }
        if !e.name.as_str().is_empty() && !e.command.as_str().is_empty() {
            out.push(e);
            proof {
                assert(entry_views(out@) =~= out_before.push(s[i]));
            }
        }
    }
    assert(s.subrange(0, s.len() as int) =~= s);
    out
}

} // verus!
