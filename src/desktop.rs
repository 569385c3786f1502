//! Entries read from application description files (`.desktop` files).
use vstd::prelude::*;
use vstd::string::*;

use freedesktop_desktop_entry::DesktopEntry;

use crate::fuzzy::{string_from_chars, string_views};
use crate::text::{is_whitespace, is_ws};
use crate::index::{opt_view, valid_entry, AppAction, AppActionView, AppIndex, AppIndexView};

verus! {

/// No line of `text` starts, after its leading whitespace, with `=`: every
/// `=` has a character before it on its line that is not whitespace.
pub open spec fn no_bare_equals(text: Seq<char>) -> bool {
    forall|i: int|
        0 <= i < text.len() && #[trigger] text[i] == '=' ==> exists|j: int|
            0 <= j < i && !is_ws(text[j]) && forall|k: int| j < k < i ==> text[k] != '\n'
}

/// The untranslated value of `key` in the `Desktop Entry` group of the
/// description file at `path` with contents `text`; `None` where the key is
/// absent or the file does not decode.
pub uninterp spec fn entry_value(path: Seq<char>, text: Seq<char>, key: Seq<char>) -> Option<
    Seq<char>,
>;

/// The untranslated value of `key` in the group of action `action` of the
/// description file at `path` with contents `text`; `None` where the key is
/// absent or the file does not decode.
pub uninterp spec fn action_value(
    path: Seq<char>,
    text: Seq<char>,
    action: Seq<char>,
    key: Seq<char>,
) -> Option<Seq<char>>;

/// Relies on `DesktopEntry::decode`, which reads the groups and keys of a
/// description file (it fails where the path has no file stem, and panics on
/// a line that starts with `=`), and on `DesktopEntry::desktop_entry`, which
/// looks up a key of the `Desktop Entry` group without translating it.
#[verifier::external_body]
fn entry_value_of(path: &str, text: &str, key: &str) -> (r: Option<String>)
    requires
        no_bare_equals(text@),
    ensures
        opt_view(r) == entry_value(path@, text@, key@),
{
    match DesktopEntry::decode(std::path::Path::new(path), text) {
        Ok(entry) => entry.desktop_entry(key).map(|v| v.to_owned()),
        Err(_) => None,
    }
}

/// Relies on `DesktopEntry::decode` (as above) and on
/// `DesktopEntry::action_entry`, which looks up a key of the group
/// `Desktop Action <action>` without translating it.
#[verifier::external_body]
fn action_value_of(path: &str, text: &str, action: &str, key: &str) -> (r: Option<String>)
    requires
        no_bare_equals(text@),
    ensures
        opt_view(r) == action_value(path@, text@, action@, key@),
{
    match DesktopEntry::decode(std::path::Path::new(path), text) {
        Ok(entry) => entry.action_entry(action, key).map(|v| v.to_owned()),
        Err(_) => None,
    }
}

/// The pieces of `s` between `;` separators (one piece more than separators).
pub open spec fn pieces(s: Seq<char>) -> Seq<Seq<char>>
    decreases s.len(),
{
    if s.len() == 0 {
        seq![seq![]]
    } else {
        let p = pieces(s.drop_last());
        if s.last() == ';' {
            p.push(seq![])
        } else {
            p.update(p.len() - 1, p.last().push(s.last()))
        }
    }
}

/// Splits the value of an `Actions` key at each `;`.
pub fn split_actions(list: &str) -> (r: Vec<String>)
    ensures
        string_views(r@) == pieces(list@),
{
    let ghost s = list@;
    let n = list.unicode_len();
    let mut done: Vec<String> = Vec::new();
    let mut cur: Vec<char> = Vec::new();
    let mut i: usize = 0;
    assert(s.subrange(0, 0) =~= Seq::<char>::empty());
    assert(string_views(done@).push(cur@) =~= seq![Seq::<char>::empty()]);
    while i < n
        invariant
            s == list@,
            n == s.len(),
            i <= n,
            pieces(s.subrange(0, i as int)) == string_views(done@).push(cur@),
        decreases n - i,
    {
        let c = list.get_char(i);
        let ghost before = string_views(done@);
        let ghost cur_before = cur@;
        proof {
            assert(s.subrange(0, i as int + 1).drop_last() =~= s.subrange(0, i as int));
            assert(s.subrange(0, i as int + 1).last() == c);
        }
        if c == ';' {
            let piece = string_from_chars(&cur);
            done.push(piece);
            cur = Vec::new();
            proof {
                assert(string_views(done@) =~= before.push(cur_before));
                assert(string_views(done@).push(cur@) =~= before.push(cur_before).push(
                    Seq::<char>::empty(),
                ));
            }
        } else {
            cur.push(c);
            proof {
                assert(before.push(cur@) =~= before.push(cur_before).update(
                    before.len() as int,
                    cur_before.push(c),
                ));
            }
        }
        i += 1;
    }
    assert(s.subrange(0, n as int) =~= s);
    let ghost before = string_views(done@);
    let piece = string_from_chars(&cur);
    done.push(piece);
    proof {
        assert(string_views(done@) =~= before.push(cur@));
    }
    done
}

pub open spec fn field_views(v: Seq<(Option<String>, Option<String>)>) -> Seq<(Option<Seq<char>>, Option<Seq<char>>)> {
    v.map_values(|p: (Option<String>, Option<String>)| (opt_view(p.0), opt_view(p.1)))
}

/// The actions whose name and command are both present, in order.
pub open spec fn usable_actions(v: Seq<(Option<Seq<char>>, Option<Seq<char>>)>) -> Seq<AppActionView>
    decreases v.len(),
{
    if v.len() == 0 {
        seq![]
    } else {
        let rest = usable_actions(v.drop_last());
        match v.last() {
            (Some(name), Some(command)) => rest.push(AppActionView { name, command }),
            _ => rest,
        }
    }
}

/// The fields read from a description file make an entry: where both the
/// name and the command are present and non-empty.
pub open spec fn usable(name: Option<Seq<char>>, exec: Option<Seq<char>>) -> bool {
    &&& name is Some
    &&& name->0.len() > 0
    &&& exec is Some
    &&& exec->0.len() > 0
}

/// The entry made of the fields of a description file: `None` where the name
/// or the command is missing or empty; of the actions, those with both a name
/// and a command are kept.
pub fn entry_from_fields(
    name: Option<String>,
    exec: Option<String>,
    generic_name: Option<String>,
    actions: Vec<(Option<String>, Option<String>)>,
) -> (r: Option<AppIndex>)
    ensures
        r is Some <==> usable(opt_view(name), opt_view(exec)),
        r matches Some(e) ==> e@ == (AppIndexView {
            command: opt_view(exec)->0,
            name: opt_view(name)->0,
            generic_name: opt_view(generic_name),
            actions: usable_actions(field_views(actions@)),
        }),
        r matches Some(e) ==> valid_entry(e@),
{
    let name = match name {
        Some(n) => n,
        None => return None,
    };
    let exec = match exec {
        Some(x) => x,
        None => return None,
    };
    if name.as_str().is_empty() || exec.as_str().is_empty() {
        return None;
    }
    let ghost fv = field_views(actions@);
    let mut kept: Vec<AppAction> = Vec::new();
    let mut i: usize = 0;
    while i < actions.len()
        invariant
            fv == field_views(actions@),
            i <= actions@.len(),
            kept@.map_values(|a: AppAction| a@) == usable_actions(fv.subrange(0, i as int)),
        decreases actions.len() - i,
    {
        let ghost before = kept@;
        proof {
            assert(fv.subrange(0, i as int + 1).drop_last() =~= fv.subrange(0, i as int));
            assert(fv.subrange(0, i as int + 1).last() == fv[i as int]);
        }
        match (&actions[i].0, &actions[i].1) {
            (Some(n), Some(c)) => {
                let action = AppAction { name: n.clone(), command: c.clone() };
                kept.push(action);
                proof {
                    assert(kept@.map_values(|a: AppAction| a@) =~= before.map_values(
                        |a: AppAction| a@,
                    ).push(action@));
                }
            },
            _ => {},
        }
        i += 1;
    }
    assert(fv.subrange(0, actions@.len() as int) =~= fv);
    Some(AppIndex { command: exec, name, generic_name, actions: kept })
}

pub open spec fn name_key() -> Seq<char> {
    seq!['N', 'a', 'm', 'e']
}

pub open spec fn generic_name_key() -> Seq<char> {
    seq!['G', 'e', 'n', 'e', 'r', 'i', 'c', 'N', 'a', 'm', 'e']
}

pub open spec fn exec_key_name() -> Seq<char> {
    seq!['E', 'x', 'e', 'c']
}

pub open spec fn actions_key() -> Seq<char> {
    seq!['A', 'c', 't', 'i', 'o', 'n', 's']
}

/// Name and command of the action `id` of a description file.
pub open spec fn action_pair(path: Seq<char>, text: Seq<char>, id: Seq<char>) -> (
    Option<Seq<char>>,
    Option<Seq<char>>,
) {
    (action_value(path, text, id, name_key()), action_value(path, text, id, exec_key_name()))
}

/// Name and command of each action listed under the `Actions` key.
pub open spec fn action_fields(path: Seq<char>, text: Seq<char>) -> Seq<
    (Option<Seq<char>>, Option<Seq<char>>),
> {
    match entry_value(path, text, actions_key()) {
        Some(list) => pieces(list).map_values(|id: Seq<char>| action_pair(path, text, id)),
        None => seq![],
    }
}

/// The entry that a description file gives: its name, command, generic name
/// and the actions with both a name and a command; `None` where the name or
/// the command is missing or empty.
pub open spec fn desktop_file_entry(path: Seq<char>, text: Seq<char>) -> Option<AppIndexView> {
    let name = entry_value(path, text, name_key());
    let exec = entry_value(path, text, exec_key_name());
    if usable(name, exec) {
        Some(
            AppIndexView {
                command: exec->0,
                name: name->0,
                generic_name: entry_value(path, text, generic_name_key()),
                actions: usable_actions(action_fields(path, text)),
            },
        )
    } else {
        None
    }
}

pub open spec fn entry_view(o: Option<AppIndex>) -> Option<AppIndexView> {
    match o {
        Some(e) => Some(e@),
        None => None,
    }
}

/// Whether no line of `text` starts, after its leading whitespace, with `=`.
pub fn no_bare_equals_text(text: &str) -> (r: bool)
    ensures
        r == no_bare_equals(text@),
{
    let ghost s = text@;
    let n = text.unicode_len();
    let mut blank = true;
    let mut line_start: usize = 0;
    let mut witness: usize = 0;
    let mut i: usize = 0;
    while i < n
        invariant
            s == text@,
            n == s.len(),
            line_start <= i <= n,
            line_start == 0 || s[line_start - 1] == '\n',
            forall|k: int| line_start <= k < i ==> s[k] != '\n',
            blank ==> forall|k: int| line_start <= k < i ==> is_ws(s[k]),
            !blank ==> line_start <= witness < i && !is_ws(s[witness as int]),
            forall|m: int|
                0 <= m < i && #[trigger] s[m] == '=' ==> exists|j: int|
                    0 <= j < m && !is_ws(s[j]) && forall|k: int| j < k < m ==> s[k] != '\n',
        decreases n - i,
    {
        let c = text.get_char(i);
        if c == '=' {
            if blank {
                proof {
                    assert forall|j: int|
                        0 <= j < i && !is_ws(s[j]) implies exists|k: int|
                        j < k < i && s[k] == '\n' by {
                        if j >= line_start {
                        } else {
                            assert(s[line_start - 1] == '\n');
                        }
                    }
                    assert(s[i as int] == '=');
                }
                return false;
            }
            proof {
                let w = witness as int;
                assert(forall|k: int| w < k < i ==> s[k] != '\n');
            }
        }
        if c == '\n' {
            blank = true;
            line_start = i + 1;
        } else if !is_whitespace(c) {
            blank = false;
            witness = i;
        }
        i += 1;
    }
    true
}

/// Reads the entry of the description file at `path` with contents `text`:
/// its name, command, generic name and the actions listed under its
/// `Actions` key, all untranslated. A file whose name or command is missing
/// or empty gives `None`, and so does a text with a line that starts with
/// `=`, which the decoder does not accept.
pub fn read_desktop_entry(path: &str, text: &str) -> (r: Option<AppIndex>)
    ensures
        !no_bare_equals(text@) ==> r is None,
        no_bare_equals(text@) ==> entry_view(r) == desktop_file_entry(path@, text@),
        r matches Some(e) ==> valid_entry(e@),
{
    if !no_bare_equals_text(text) {
        return None;
    }
    proof {
        reveal_strlit("Name");
        reveal_strlit("GenericName");
        reveal_strlit("Exec");
        reveal_strlit("Actions");
        assert("Name"@ =~= name_key());
        assert("GenericName"@ =~= generic_name_key());
        assert("Exec"@ =~= exec_key_name());
        assert("Actions"@ =~= actions_key());
    }
    let mut actions: Vec<(Option<String>, Option<String>)> = Vec::new();
    let list = entry_value_of(path, text, "Actions");
    match &list {
        Some(list) => {
            let ids = split_actions(list.as_str());
            let ghost idv = string_views(ids@);
            let mut i: usize = 0;
            while i < ids.len()
                invariant
                    no_bare_equals(text@),
                    idv == string_views(ids@),
                    i <= ids@.len(),
                    "Name"@ == name_key(),
                    "Exec"@ == exec_key_name(),
                    field_views(actions@).len() == i,
                    forall|k: int|
                        0 <= k < i ==> #[trigger] field_views(actions@)[k] == action_pair(
                            path@,
                            text@,
                            idv[k],
                        ),
                decreases ids.len() - i,
            {
                let id = ids[i].as_str();
                let name = action_value_of(path, text, id, "Name");
                let exec = action_value_of(path, text, id, "Exec");
                let ghost before = field_views(actions@);
                actions.push((name, exec));
                proof {
                    assert(field_views(actions@) =~= before.push(
                        action_pair(path@, text@, idv[i as int]),
                    ));
                }
                i += 1;
            }
            proof {
                assert(field_views(actions@) =~= action_fields(path@, text@));
            }
        },
        None => {
            assert(field_views(actions@) =~= action_fields(path@, text@));
        },
    }
    let name = entry_value_of(path, text, "Name");
    let exec = entry_value_of(path, text, "Exec");
    let generic_name = entry_value_of(path, text, "GenericName");
    entry_from_fields(name, exec, generic_name, actions)
}

} // verus!
