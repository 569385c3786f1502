//! The launcher: holds the index snapshot and its settings, and turns a query
//! into a keyword to search for and arguments to run with.
use vstd::prelude::*;
use vstd::string::*;

use crate::finder::{found, AppMatch, Finder};
use crate::index::{entry_views, find_space, first_space, merged, opt_view, valid_only, AppIndex, AppIndexView, Indexer};
use crate::text::same_text;

verus! {

/// The field codes of a desktop entry's command that stand for arguments.
pub const SWITCHES: &'static str = "%(f|F|u|U|i|c|k|v|m|d|D|n|N)";

pub struct Launcher {
    finder: Finder,
    config_prefix: String,
    config_index_path: bool,
    config_number_of_results: usize,
}

pub struct LauncherView {
    pub entries: Seq<AppIndexView>,
    pub prefix: Seq<char>,
    pub index_path: bool,
    pub number_of_results: nat,
}

impl View for Launcher {
    type V = LauncherView;

    closed spec fn view(&self) -> LauncherView {
        LauncherView {
            entries: self.finder@,
            prefix: self.config_prefix@,
            index_path: self.config_index_path,
            number_of_results: self.config_number_of_results as nat,
        }
    }
}

/// The settings of a launcher that holds an empty index.
pub open spec fn fresh(v: LauncherView) -> bool {
    &&& v.entries == Seq::<AppIndexView>::empty()
    &&& v.prefix == Seq::<char>::empty()
    &&& !v.index_path
    &&& v.number_of_results == 0
}

impl Default for Launcher {
    fn default() -> (r: Self)
        ensures
            fresh(r@),
    {
        Launcher {
            finder: Finder::default(),
            config_prefix: String::new(),
            config_index_path: false,
            config_number_of_results: 0,
        }
    }
}

/// What `regex` gives when every match of `pattern` in `text` is replaced by
/// `rep`, or `None` where `pattern` does not compile.
pub uninterp spec fn regex_replaced(pattern: Seq<char>, text: Seq<char>, rep: Seq<char>) -> Option<
    Seq<char>,
>;

/// Relies on `regex::Regex::new`, which compiles `pattern` or fails, and on
/// `Regex::replace_all`, which replaces every non-overlapping match of it in
/// `text` by `rep`, where `$name` and `${name}` in `rep` stand for capture
/// groups.
#[verifier::external_body]
fn replace_all_matches(pattern: &str, text: &str, rep: &str) -> (r: Option<String>)
    ensures
        opt_view(r) == regex_replaced(pattern@, text@, rep@),
{
    match regex::Regex::new(pattern) {
        Ok(re) => Some(re.replace_all(text, rep).into_owned()),
        Err(_) => None,
    }
}

/// The command to run: `replaced` where substituting the arguments changed
/// the command, else the command followed by a space and the arguments.
pub open spec fn command_with_args(command: Seq<char>, args: Seq<char>, replaced: Seq<char>) -> Seq<
    char,
> {
    if replaced == command {
        command + seq![' '] + args
    } else {
        replaced
    }
}

/// The keyword of a query: what precedes its first space.
pub open spec fn keyword_of(q: Seq<char>) -> Seq<char> {
    q.subrange(0, first_space(q))
}

/// The arguments of a query: what follows its first space.
pub open spec fn args_of(q: Seq<char>) -> Seq<char> {
    if first_space(q) < q.len() {
        q.subrange(first_space(q) + 1, q.len() as int)
    } else {
        seq![]
    }
}

impl Launcher {
    pub fn new() -> (r: Self)
        ensures
            fresh(r@),
    {
        Self::default()
    }

    /// Sets the query prefix, whether the search path is indexed and how many
    /// results are shown.
    pub fn configure(&mut self, prefix: String, index_path: bool, number_of_results: usize)
        ensures
            final(self)@ == (LauncherView {
                entries: old(self)@.entries,
                prefix: prefix@,
                index_path,
                number_of_results: number_of_results as nat,
            }),
    {
        self.config_prefix = prefix;
        self.config_index_path = index_path;
        self.config_number_of_results = number_of_results;
    }

    /// Replaces the index snapshot by one built from freshly gathered
    /// entries; search-path entries count only where the settings say so.
    pub fn reindex_apps(&mut self, desktop: Vec<AppIndex>, path: Vec<AppIndex>)
        ensures
            final(self)@ == (LauncherView {
                entries: if old(self)@.index_path {
                    merged(entry_views(desktop@), entry_views(path@))
                } else {
                    valid_only(entry_views(desktop@))
                },
                ..old(self)@
            }),
    {
        let path = if self.config_index_path {
            Some(path)
        } else {
            None
        };
        let indices = Indexer::default().index(desktop, path);
        self.finder = Finder::new(indices);
    }

    /// The best matches of `query`, as many as the settings say.
    pub fn find_apps(&self, query: &str) -> (r: Vec<AppMatch<'_>>)
        ensures
            crate::finder::match_views(r@) == found(query@, self@.entries, self@.number_of_results),
    {
        self.finder.find(query, self.config_number_of_results)
    }

    /// Splits a query at its first space into the keyword and the arguments.
    pub fn split_query(query: &str) -> (r: (String, String))
        ensures
            r.0@ == keyword_of(query@),
            r.1@ == args_of(query@),
    {
        let n = query.unicode_len();
        let end = find_space(query, 0);
        assert(query@.subrange(0, n as int) =~= query@);
        let keyword = String::from_str(query.substring_char(0, end));
        let args = if end < n {
            String::from_str(query.substring_char(end + 1, n))
        } else {
            String::new()
        };
        (keyword, args)
    }

    /// The command to run with `args` where substituting them gave
    /// `replaced`.
    pub fn with_arguments(command: &str, args: &str, replaced: &str) -> (r: String)
        ensures
            r@ == command_with_args(command@, args@, replaced@),
    {
        if same_text(replaced, command) {
            let mut line = String::from_str(command);
            line.append(" ");
            line.append(args);
            proof {
                reveal_strlit(" ");
            }
            line
        } else {
            String::from_str(replaced)
        }
    }

    /// The command line that runs `command` with `args`: every field code of
    /// the command is replaced by the arguments, or, where it has none, the
    /// arguments are appended.
    pub fn command_line(command: &str, args: &str) -> (r: String)
        ensures
            r@ == command_with_args(
                command@,
                args@,
                match regex_replaced(SWITCHES@, command@, args@) {
                    Some(t) => t,
                    None => command@,
                },
            ),
    {
        match replace_all_matches(SWITCHES, command, args) {
            Some(replaced) => Self::with_arguments(command, args, replaced.as_str()),
            None => Self::with_arguments(command, args, command),
        }
    }
}

} // verus!
