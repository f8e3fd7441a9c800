//! The completion specs a shell has registered, by command name and for the special cases,
//! and the choice of the spec that completes a line.

use vstd::prelude::*;

use super::{CompleteOption, EditPrefs, GenerationOptions};
use crate::text;

verus! {

/// Type of action to take to generate completion candidates. Each one's name (e.g.
/// `arrayvar`) is what `complete -A` takes.
#[derive(Clone, Copy, Debug, Eq, PartialEq, Structural)]
pub enum CompleteAction {
    /// Complete with valid aliases.
    Alias,
    /// Complete with names of array shell variables.
    ArrayVar,
    /// Complete with names of key bindings.
    Binding,
    /// Complete with names of shell builtins.
    Builtin,
    /// Complete with names of executable commands.
    Command,
    /// Complete with directory names.
    Directory,
    /// Complete with names of disabled shell builtins.
    Disabled,
    /// Complete with names of enabled shell builtins.
    Enabled,
    /// Complete with names of exported shell variables.
    Export,
    /// Complete with filenames.
    File,
    /// Complete with names of shell functions.
    Function,
    /// Complete with valid user groups.
    Group,
    /// Complete with names of valid shell help topics.
    HelpTopic,
    /// Complete with the system's hostname(s).
    HostName,
    /// Complete with the command names of shell-managed jobs.
    Job,
    /// Complete with valid shell keywords.
    Keyword,
    /// Complete with the command names of running shell-managed jobs.
    Running,
    /// Complete with names of system services.
    Service,
    /// Complete with the names of options settable via set -o.
    SetOpt,
    /// Complete with the names of options settable via shopt.
    ShOpt,
    /// Complete with the names of trappable signals.
    Signal,
    /// Complete with the command names of stopped shell-managed jobs.
    Stopped,
    /// Complete with valid usernames.
    User,
    /// Complete with names of shell variables.
    Variable,
}

/// Encapsulates a command completion specification; provides policy for how to
/// generate completions for a given input.
#[derive(Clone, Debug)]
pub struct Spec {
    /// Options to use for completion.
    pub options: GenerationOptions,
    /// Actions to take to generate completions.
    pub actions: Vec<CompleteAction>,
    /// Optionally, a glob pattern whose expansion will be used as completions.
    pub glob_pattern: Option<String>,
    /// Optionally, a list of words to use as completions.
    pub word_list: Option<String>,
    /// Optionally, the name of a shell function to invoke to generate completions.
    pub function_name: Option<String>,
    /// Optionally, the name of a command to execute to generate completions.
    pub command: Option<String>,
    /// Optionally, a pattern to filter completions (`complete -X`), as given.
    pub filter_pattern: Option<String>,
    /// Optionally, provides a prefix to be prepended to all completion candidates.
    pub prefix: Option<String>,
    /// Optionally, provides a suffix to be appended to all completion candidates.
    pub suffix: Option<String>,
}

impl Default for Spec {
    fn default() -> (r: Self)
        ensures
            r.options@ == Set::<CompleteOption>::empty(),
            r.actions@.len() == 0,
            r.glob_pattern is None,
            r.word_list is None,
            r.function_name is None,
            r.command is None,
            r.filter_pattern is None,
            r.prefix is None,
            r.suffix is None,
    {
        Spec {
            options: GenerationOptions::default(),
            actions: Vec::new(),
            glob_pattern: None,
            word_list: None,
            function_name: None,
            command: None,
            filter_pattern: None,
            prefix: None,
            suffix: None,
        }
    }
}

/// A completion spec used in place of a command's.
#[derive(Clone, Copy, Debug, Eq, Hash, Ord, PartialEq, PartialOrd, Structural)]
pub enum SpecialSpec {
    /// The spec used when no command's spec applies (`complete -D`).
    Default,
    /// The spec used when the command line is empty (`complete -E`).
    EmptyLine,
    /// The spec used for the initial word of a command line (`complete -I`).
    InitialWord,
}

/// Bash's name for a special spec, which stands in for a command's.
pub open spec fn special_name(s: SpecialSpec) -> Seq<char> {
    match s {
        SpecialSpec::Default => "_DefaultCmD_"@,
        SpecialSpec::EmptyLine => "_EmptycmD_"@,
        SpecialSpec::InitialWord => "_InitialWorD_"@,
    }
}

/// The special spec that `name`, bash's name for it, names, if any (the first whose name
/// it is, in declaration order).
pub open spec fn special_named(name: Seq<char>) -> Option<SpecialSpec> {
    if name == special_name(SpecialSpec::Default) {
        Some(SpecialSpec::Default)
    } else if name == special_name(SpecialSpec::EmptyLine) {
        Some(SpecialSpec::EmptyLine)
    } else if name == special_name(SpecialSpec::InitialWord) {
        Some(SpecialSpec::InitialWord)
    } else {
        None
    }
}

impl SpecialSpec {
    /// Returns the name that stands in for a command's with this spec, as bash's does:
    /// the `complete` and `compopt` builtins accept it in place of a command name, and a
    /// completion function for the empty-line or initial-word spec gets it as `$1`.
    pub fn command_name(self) -> (r: &'static str)
        ensures
            r@ == special_name(self),
    {
        match self {
            SpecialSpec::Default => "_DefaultCmD_",
            SpecialSpec::EmptyLine => "_EmptycmD_",
            SpecialSpec::InitialWord => "_InitialWorD_",
        }
    }

    /// Returns the special spec that `name`, bash's name for it, names, if any.
    pub fn from_command_name(name: &str) -> (r: Option<Self>)
        ensures
            r == special_named(name@),
    {
        if text::str_eq(name, SpecialSpec::Default.command_name()) {
            Some(SpecialSpec::Default)
        } else if text::str_eq(name, SpecialSpec::EmptyLine.command_name()) {
            Some(SpecialSpec::EmptyLine)
        } else if text::str_eq(name, SpecialSpec::InitialWord.command_name()) {
            Some(SpecialSpec::InitialWord)
        } else {
            None
        }
    }
}

/// Names a completion spec in a [`Config`].
#[derive(Clone, Copy, Debug, Eq, Hash, Ord, PartialEq, PartialOrd)]
pub enum SpecName<'a> {
    /// The spec for completing the named command's arguments.
    Command(&'a str),
    /// One of the special specs.
    Special(SpecialSpec),
}

/// The text of a spec's name: a command's, or for a special spec, bash's name for it.
pub open spec fn name_text(n: SpecName) -> Seq<char> {
    match n {
        SpecName::Command(c) => c@,
        SpecName::Special(s) => special_name(s),
    }
}

impl<'a> SpecName<'a> {
    /// Returns the spec named `name`: a command's, or the special spec that bash's name for
    /// it names.
    pub fn parse(name: &'a str) -> (r: Self)
        ensures
            r == match special_named(name@) {
                Some(s) => SpecName::Special(s),
                None => SpecName::Command(name),
            },
    {
        match SpecialSpec::from_command_name(name) {
            Some(s) => SpecName::Special(s),
            None => SpecName::Command(name),
        }
    }

    /// Returns the name: a command's, or for a special spec, bash's name for it.
    pub fn as_str(self) -> (r: &'a str)
        ensures
            r@ == name_text(self),
    {
        match self {
            SpecName::Command(command) => command,
            SpecName::Special(special) => special.command_name(),
        }
    }
}

/// The map that (name, spec) pairs with distinct names denote.
pub open spec fn commands_map(s: Seq<(String, Spec)>) -> Map<Seq<char>, Spec>
    decreases s.len(),
{
    if s.len() == 0 {
        Map::empty()
    } else {
        commands_map(s.drop_last()).insert(s.last().0@, s.last().1)
    }
}

/// No name occurs twice.
pub open spec fn names_distinct(s: Seq<(String, Spec)>) -> bool {
    forall|i: int, j: int| 0 <= i < j < s.len() ==> s[i].0@ != s[j].0@
}

proof fn lemma_commands_at(s: Seq<(String, Spec)>, i: int)
    requires
        names_distinct(s),
        0 <= i < s.len(),
    ensures
        commands_map(s).contains_key(s[i].0@),
        commands_map(s)[s[i].0@] == s[i].1,
    decreases s.len(),
{
    if i < s.len() - 1 {
        lemma_commands_at(s.drop_last(), i);
    }
}

proof fn lemma_commands_dom(s: Seq<(String, Spec)>, k: Seq<char>)
    ensures
        commands_map(s).contains_key(k) <==> exists|j: int| 0 <= j < s.len() && s[j].0@ == k,
    decreases s.len(),
{
    if s.len() > 0 {
        lemma_commands_dom(s.drop_last(), k);
        if commands_map(s.drop_last()).contains_key(k) {
            let j = choose|j: int| 0 <= j < s.drop_last().len() && s.drop_last()[j].0@ == k;
            assert(s[j].0@ == k);
        }
        if exists|j: int| 0 <= j < s.len() && s[j].0@ == k {
            let j = choose|j: int| 0 <= j < s.len() && s[j].0@ == k;
            if j < s.len() - 1 {
                assert(s.drop_last()[j].0@ == k);
            }
        }
    }
}

proof fn lemma_commands_update(s: Seq<(String, Spec)>, i: int, e: (String, Spec))
    requires
        names_distinct(s),
        0 <= i < s.len(),
        s[i].0@ == e.0@,
    ensures
        names_distinct(s.update(i, e)),
        commands_map(s.update(i, e)) == commands_map(s).insert(e.0@, e.1),
    decreases s.len(),
{
    let t = s.update(i, e);
    if i < s.len() - 1 {
        assert(t.drop_last() == s.drop_last().update(i, e));
        lemma_commands_update(s.drop_last(), i, e);
        assert(commands_map(t) =~= commands_map(s).insert(e.0@, e.1));
    } else {
        assert(t.drop_last() == s.drop_last());
        lemma_commands_dom(s.drop_last(), e.0@);
        assert(commands_map(t) =~= commands_map(s).insert(e.0@, e.1));
    }
}

proof fn lemma_commands_push(s: Seq<(String, Spec)>, e: (String, Spec))
    requires
        names_distinct(s),
        forall|j: int| 0 <= j < s.len() ==> s[j].0@ != e.0@,
    ensures
        names_distinct(s.push(e)),
        commands_map(s.push(e)) == commands_map(s).insert(e.0@, e.1),
{
    assert(s.push(e).drop_last() == s);
}

proof fn lemma_commands_remove(s: Seq<(String, Spec)>, i: int)
    requires
        names_distinct(s),
        0 <= i < s.len(),
    ensures
        names_distinct(s.remove(i)),
        commands_map(s.remove(i)) == commands_map(s).remove(s[i].0@),
    decreases s.len(),
{
    let t = s.remove(i);
    if i < s.len() - 1 {
        assert(t.drop_last() == s.drop_last().remove(i));
        assert(t.last() == s.last());
        lemma_commands_remove(s.drop_last(), i);
        assert(commands_map(t) =~= commands_map(s).remove(s[i].0@));
    } else {
        assert(t == s.drop_last());
        lemma_commands_dom(s.drop_last(), s[i].0@);
        assert(commands_map(t) =~= commands_map(s).remove(s[i].0@));
    }
}

/// The special specs registered, as a map.
pub open spec fn specials_map(
    default: Option<Spec>,
    empty_line: Option<Spec>,
    initial_word: Option<Spec>,
) -> Map<SpecialSpec, Spec> {
    let m0 = Map::<SpecialSpec, Spec>::empty();
    let m1 = match default {
        Some(s) => m0.insert(SpecialSpec::Default, s),
        None => m0,
    };
    let m2 = match empty_line {
        Some(s) => m1.insert(SpecialSpec::EmptyLine, s),
        None => m1,
    };
    match initial_word {
        Some(s) => m2.insert(SpecialSpec::InitialWord, s),
        None => m2,
    }
}

/// The spec a map holds under `key`, if any.
pub open spec fn map_get<K, V>(m: Map<K, V>, key: K) -> Option<V> {
    if m.contains_key(key) {
        Some(m[key])
    } else {
        None
    }
}

/// Encapsulates the shell's programmable command completion configuration.
pub struct Config {
    /// The specs for completing commands' arguments, by command name.
    commands: Vec<(String, Spec)>,
    /// The spec used when no command's spec applies.
    default: Option<Spec>,
    /// The spec used when the command line is empty.
    empty_line: Option<Spec>,
    /// The spec used for the initial word of a command line.
    initial_word: Option<Spec>,
    /// The line editor's preferences for how completions edit the line, as the `bind`
    /// builtin sets them.
    pub edit_prefs: EditPrefs,
}

impl Config {
    /// The specs for commands, by command name.
    pub closed spec fn commands(&self) -> Map<Seq<char>, Spec> {
        commands_map(self.commands@)
    }

    /// The special specs registered.
    pub closed spec fn specials(&self) -> Map<SpecialSpec, Spec> {
        specials_map(self.default, self.empty_line, self.initial_word)
    }

    /// The line editor's preferences.
    pub closed spec fn prefs(&self) -> EditPrefs {
        self.edit_prefs
    }

    /// Well-formed: no command has two specs.
    pub closed spec fn wf(&self) -> bool {
        names_distinct(self.commands@)
    }

    /// The spec registered under `name`, if any.
    pub open spec fn lookup(&self, name: SpecName) -> Option<Spec> {
        match name {
            SpecName::Command(c) => map_get(self.commands(), c@),
            SpecName::Special(s) => map_get(self.specials(), s),
        }
    }

    /// Returns a configuration with no specs registered.
    pub fn new() -> (r: Self)
        ensures
            r.wf(),
            r.commands() == Map::<Seq<char>, Spec>::empty(),
            r.specials() == Map::<SpecialSpec, Spec>::empty(),
            r.prefs().mark_directories,
            !r.prefs().mark_symlinked_directories,
    {
        let r = Config {
            commands: Vec::new(),
            default: None,
            empty_line: None,
            initial_word: None,
            edit_prefs: EditPrefs::default(),
        };
        proof {
            assert(r.commands() =~= Map::<Seq<char>, Spec>::empty());
            assert(r.specials() =~= Map::<SpecialSpec, Spec>::empty());
        }
        r
    }

    fn find(&self, name: &str) -> (r: Option<usize>)
        requires
            self.wf(),
        ensures
            match r {
                Some(i) => i < self.commands@.len() && self.commands@[i as int].0@ == name@
                    && self.commands().contains_key(name@) && self.commands()[name@] == self.commands@[i as int].1,
                None => !self.commands().contains_key(name@),
            },
    {
        let mut i: usize = 0;
        while i < self.commands.len()
            invariant
                self.wf(),
                i <= self.commands@.len(),
                forall|j: int| 0 <= j < i ==> self.commands@[j].0@ != name@,
            decreases self.commands@.len() - i,
        {
            if text::str_eq(self.commands[i].0.as_str(), name) {
                proof {
                    lemma_commands_at(self.commands@, i as int);
                }
                return Some(i);
            }
            i = i + 1;
        }
        proof {
            lemma_commands_dom(self.commands@, name@);
        }
        None
    }

    /// Removes all registered completion specs.
    pub fn clear(&mut self)
        ensures
            final(self).wf(),
            final(self).commands() == Map::<Seq<char>, Spec>::empty(),
            final(self).specials() == Map::<SpecialSpec, Spec>::empty(),
            final(self).prefs() == old(self).prefs(),
    {
        self.commands = Vec::new();
        self.default = None;
        self.empty_line = None;
        self.initial_word = None;
        proof {
            assert(self.commands() =~= Map::<Seq<char>, Spec>::empty());
            assert(self.specials() =~= Map::<SpecialSpec, Spec>::empty());
        }
    }

    /// Ensures the named completion spec is no longer registered; returns whether a
    /// removal operation was required.
    pub fn remove(&mut self, name: SpecName<'_>) -> (r: bool)
        requires
            old(self).wf(),
        ensures
            final(self).wf(),
            r == old(self).lookup(name) is Some,
            final(self).lookup(name) is None,
            match name {
                SpecName::Command(c) => final(self).commands() == old(self).commands().remove(c@)
                    && final(self).specials() == old(self).specials(),
                SpecName::Special(s) => final(self).specials() == old(self).specials().remove(s)
                    && final(self).commands() == old(self).commands(),
            },
            final(self).prefs() == old(self).prefs(),
    {
        match name {
            SpecName::Command(command) => match self.find(command) {
                Some(i) => {
                    proof {
                        lemma_commands_remove(self.commands@, i as int);
                    }
                    self.commands.remove(i);
                    true
                },
                None => {
                    proof {
                        assert(old(self).commands().remove(command@) =~= old(self).commands());
                    }
                    false
                },
            },
            SpecName::Special(special) => {
                let had = match special {
                    SpecialSpec::Default => self.default.take().is_some(),
                    SpecialSpec::EmptyLine => self.empty_line.take().is_some(),
                    SpecialSpec::InitialWord => self.initial_word.take().is_some(),
                };
                proof {
                    assert(self.specials() =~= old(self).specials().remove(special));
                }
                had
            },
        }
    }

    /// If present, returns the named completion spec.
    pub fn get(&self, name: SpecName<'_>) -> (r: Option<&Spec>)
        requires
            self.wf(),
        ensures
            match r {
                Some(s) => self.lookup(name) == Some(*s),
                None => self.lookup(name) is None,
            },
    {
        match name {
            SpecName::Command(command) => match self.find(command) {
                Some(i) => Some(&self.commands[i].1),
                None => None,
            },
            SpecName::Special(SpecialSpec::Default) => self.default.as_ref(),
            SpecName::Special(SpecialSpec::EmptyLine) => self.empty_line.as_ref(),
            SpecName::Special(SpecialSpec::InitialWord) => self.initial_word.as_ref(),
        }
    }

    /// If present, returns a mutable reference to the named completion spec.
    pub fn get_mut(&mut self, name: SpecName<'_>) -> (r: Option<&mut Spec>)
        requires
            old(self).wf(),
        ensures
            match r {
                Some(s) => old(self).lookup(name) == Some(*s)
                    && final(self).wf()
                    && final(self).prefs() == old(self).prefs()
                    && match name {
                        SpecName::Command(c) => final(self).commands() == old(self).commands().insert(c@, *final(s))
                            && final(self).specials() == old(self).specials(),
                        SpecName::Special(sp) => final(self).specials() == old(self).specials().insert(sp, *final(s))
                            && final(self).commands() == old(self).commands(),
                    },
                None => old(self).lookup(name) is None && *final(self) == *old(self),
            },
    {
        match name {
            SpecName::Command(command) => match self.find(command) {
                Some(i) => {
                    let ghost old_cmds = self.commands@;
                    let ghost old_specials = self.specials();
                    let s = &mut self.commands[i].1;
                    proof {
                        let e = (old_cmds[i as int].0, *final(s));
                        lemma_commands_update(old_cmds, i as int, e);
                        lemma_commands_at(old_cmds, i as int);
                    }
                    Some(s)
                },
                None => None,
            },
            SpecName::Special(SpecialSpec::Default) => self.default.as_mut(),
            SpecName::Special(SpecialSpec::EmptyLine) => self.empty_line.as_mut(),
            SpecName::Special(SpecialSpec::InitialWord) => self.initial_word.as_mut(),
        }
    }

    /// Registers the provided completion spec under the given name, replacing any
    /// already registered there.
    pub fn set(&mut self, name: SpecName<'_>, spec: Spec)
        requires
            old(self).wf(),
        ensures
            final(self).wf(),
            final(self).lookup(name) == Some(spec),
            match name {
                SpecName::Command(c) => final(self).commands() == old(self).commands().insert(c@, spec)
                    && final(self).specials() == old(self).specials(),
                SpecName::Special(s) => final(self).specials() == old(self).specials().insert(s, spec)
                    && final(self).commands() == old(self).commands(),
            },
            final(self).prefs() == old(self).prefs(),
    {
        match name {
            SpecName::Command(command) => match self.find(command) {
                Some(i) => {
                    let key = self.commands[i].0.clone();
                    proof {
                        lemma_commands_update(self.commands@, i as int, (key, spec));
                    }
                    self.commands.set(i, (key, spec));
                },
                None => {
                    proof {
                        lemma_commands_dom(self.commands@, command@);
                    }
                    let key = command.to_owned();
                    proof {
                        lemma_commands_push(self.commands@, (key, spec));
                    }
                    self.commands.push((key, spec));
                },
            },
            SpecName::Special(special) => {
                match special {
                    SpecialSpec::Default => self.default = Some(spec),
                    SpecialSpec::EmptyLine => self.empty_line = Some(spec),
                    SpecialSpec::InitialWord => self.initial_word = Some(spec),
                }
                proof {
                    assert(self.specials() =~= old(self).specials().insert(special, spec));
                }
            },
        }
    }
}

impl Default for Config {
    fn default() -> (r: Self)
        ensures
            r.wf(),
            r.commands() == Map::<Seq<char>, Spec>::empty(),
            r.specials() == Map::<SpecialSpec, Spec>::empty(),
    {
        Config::new()
    }
}

/// The final component of a path, if it has one: what `Path::file_name` returns.
pub uninterp spec fn path_file_name(path: Seq<char>) -> Option<Seq<char>>;

/// The final component of `path`, if it has one (`std::path::Path::file_name`, taken as
/// text). The contract only names the result: it depends on the path alone; what the
/// component is (trailing separators and `.` components are skipped, and a path ending in
/// `..` has none) is left to the standard library.
#[verifier::external_body]
fn file_name_of(path: &str) -> (r: Option<String>)
    ensures
        super::opt_text(r) == path_file_name(path@),
{
    std::path::Path::new(path).file_name().map(|name| name.to_string_lossy().into_owned())
}

/// The special spec registered, with the name it completes for.
pub open spec fn special_choice(specials: Map<SpecialSpec, Spec>, s: SpecialSpec) -> Option<(Spec, Option<Seq<char>>)> {
    match map_get(specials, s) {
        Some(spec) => Some((spec, Some(special_name(s)))),
        None => None,
    }
}

/// The first of two optional values that is there.
pub open spec fn or_else<T>(a: Option<T>, b: Option<T>) -> Option<T> {
    match a {
        Some(x) => Some(x),
        None => b,
    }
}

/// The spec that completes a line, and the name of the command it completes for: the
/// empty-line spec if there's nothing before the cursor and it isn't at the start of a
/// word, else the spec for the initial word if completing that, else its command's spec
/// (by name, or by file name if the command is a path), else the default spec.
pub open spec fn chosen_spec(
    commands: Map<Seq<char>, Spec>,
    specials: Map<SpecialSpec, Spec>,
    input: Seq<char>,
    cursor: int,
    cword: Option<usize>,
    command_name: Option<Seq<char>>,
) -> Option<(Spec, Option<Seq<char>>)> {
    if cursor == 0 && (input.len() == 0 || text::is_white_space(input[0])) {
        special_choice(specials, SpecialSpec::EmptyLine)
    } else if cword is None || cword == Some(0usize) {
        special_choice(specials, SpecialSpec::InitialWord)
    } else {
        match command_name {
            None => None,
            Some(c) => {
                let by_file_name = match path_file_name(c) {
                    Some(f) => map_get(commands, f),
                    None => None,
                };
                match or_else(or_else(map_get(commands, c), by_file_name), map_get(specials, SpecialSpec::Default)) {
                    Some(spec) => Some((spec, Some(c))),
                    None => None,
                }
            },
        }
    }
}

/// An optional text as values.
pub open spec fn opt_str(o: Option<&str>) -> Option<Seq<char>> {
    match o {
        Some(s) => Some(s@),
        None => None,
    }
}

impl Config {
    fn special<'l>(&self, special: SpecialSpec) -> (r: Option<(&Spec, Option<&'l str>)>)
        requires
            self.wf(),
        ensures
            match r {
                Some((s, n)) => special_choice(self.specials(), special) == Some((*s, opt_str(n))),
                None => special_choice(self.specials(), special) is None,
            },
    {
        match self.get(SpecName::Special(special)) {
            Some(spec) => Some((spec, Some(special.command_name()))),
            None => None,
        }
    }

    /// Returns the completion spec to use for completing the line `input` at `cursor`,
    /// whose cursor word is the `cword`-th (if any) of the command `command_name`, and the
    /// name of the command it completes for (a completion function's `$1`); see
    /// [`chosen_spec`]. Like bash, the empty-line and initial-word specs complete for
    /// commands named after them.
    pub fn find_spec<'l>(
        &self,
        input: &str,
        cursor: usize,
        cword: Option<usize>,
        command_name: Option<&'l str>,
    ) -> (r: Option<(&Spec, Option<&'l str>)>)
        requires
            self.wf(),
        ensures
            match r {
                Some((s, n)) => chosen_spec(self.commands(), self.specials(), input@, cursor as int, cword,
                    opt_str(command_name)) == Some((*s, opt_str(n))),
                None => chosen_spec(self.commands(), self.specials(), input@, cursor as int, cword,
                    opt_str(command_name)) is None,
            },
    {
        if cursor == 0 {
            let v = text::chars_of(input);
            if v.len() == 0 || text::is_whitespace(text::char_at(&v, 0)) {
                return self.special(SpecialSpec::EmptyLine);
            }
        }
        let initial = match cword {
            None => true,
            Some(i) => i == 0,
        };
        if initial {
            return self.special(SpecialSpec::InitialWord);
        }
        let command_name = match command_name {
            Some(c) => c,
            None => return None,
        };
        let spec = match self.get(SpecName::Command(command_name)) {
            Some(spec) => Some(spec),
            None => match file_name_of(command_name) {
                Some(file_name) => self.get(SpecName::Command(file_name.as_str())),
                None => None,
            },
        };
        let spec = match spec {
            Some(spec) => Some(spec),
            None => self.get(SpecName::Special(SpecialSpec::Default)),
        };
        match spec {
            Some(spec) => Some((spec, Some(command_name))),
            None => None,
        }
    }
}

impl Config {
    /// Returns the completion specs with their names: the command specs, in the order
    /// they were first set, then the special ones.
    pub fn iter(&self) -> (r: Vec<(SpecName<'_>, &Spec)>)
        requires
            self.wf(),
        ensures
            forall|i: int| 0 <= i < r@.len() ==> self.lookup(#[trigger] r@[i].0) == Some(*r@[i].1),
            forall|name: SpecName| #[trigger] self.lookup(name) is Some ==> exists|i: int| 0 <= i < r@.len() && !names_differ(
                r@[i].0,
                name,
            ),
            forall|i: int, j: int| 0 <= i < j < r@.len() ==> names_differ(r@[i].0, r@[j].0),
    {
        let mut out: Vec<(SpecName<'_>, &Spec)> = Vec::new();
        let mut i: usize = 0;
        while i < self.commands.len()
            invariant
                self.wf(),
                i <= self.commands@.len(),
                out@.len() == i,
                forall|k: int| 0 <= k < i ==> (#[trigger] out@[k]).0 is Command && out@[k].0->Command_0@ == self.commands@[k].0@
                    && *out@[k].1 == self.commands@[k].1,
            decreases self.commands@.len() - i,
        {
            let entry = &self.commands[i];
            out.push((SpecName::Command(entry.0.as_str()), &entry.1));
            i = i + 1;
        }
        let ghost s0 = out@;
        if let Some(spec) = &self.default {
            out.push((SpecName::Special(SpecialSpec::Default), spec));
        }
        let ghost s1 = out@;
        if let Some(spec) = &self.empty_line {
            out.push((SpecName::Special(SpecialSpec::EmptyLine), spec));
        }
        let ghost s2 = out@;
        if let Some(spec) = &self.initial_word {
            out.push((SpecName::Special(SpecialSpec::InitialWord), spec));
        }
        proof {
            let n = s0.len();
            assert(forall|k: int| 0 <= k < n ==> #[trigger] out@[k] == s0[k]);
            assert(self.default is Some ==> out@[n as int].0 == SpecName::Special(SpecialSpec::Default) && *out@[n as int].1
                == self.default->Some_0);
            assert(self.empty_line is Some ==> out@[s1.len() as int].0 == SpecName::Special(SpecialSpec::EmptyLine)
                && *out@[s1.len() as int].1 == self.empty_line->Some_0);
            assert(self.initial_word is Some ==> out@[s2.len() as int].0 == SpecName::Special(SpecialSpec::InitialWord)
                && *out@[s2.len() as int].1 == self.initial_word->Some_0);
            assert(forall|k: int| n <= k < out@.len() ==> (#[trigger] out@[k]).0 is Special);
            assert forall|i: int| 0 <= i < out@.len() implies self.lookup(#[trigger] out@[i].0) == Some(*out@[i].1) by {
                if i < n {
                    assert(out@[i] == s0[i]);
                    lemma_commands_at(self.commands@, i);
                }
            }
            assert forall|name: SpecName| #[trigger] self.lookup(name) is Some implies exists|i: int| 0 <= i < out@.len()
                && !names_differ(out@[i].0, name) by {
                match name {
                    SpecName::Command(c) => {
                        lemma_commands_dom(self.commands@, c@);
                        let j = choose|j: int| 0 <= j < self.commands@.len() && self.commands@[j].0@ == c@;
                        assert(out@[j] == s0[j]);
                        assert(!names_differ(out@[j].0, name));
                    },
                    SpecName::Special(SpecialSpec::Default) => {
                        assert(!names_differ(out@[n as int].0, name));
                    },
                    SpecName::Special(SpecialSpec::EmptyLine) => {
                        assert(!names_differ(out@[s1.len() as int].0, name));
                    },
                    SpecName::Special(SpecialSpec::InitialWord) => {
                        assert(!names_differ(out@[s2.len() as int].0, name));
                    },
                }
            }
            assert forall|i: int, j: int| 0 <= i < j < out@.len() implies names_differ(out@[i].0, out@[j].0) by {
                if j < n {
                    assert(out@[i] == s0[i] && out@[j] == s0[j]);
                    assert(self.commands@[i].0@ != self.commands@[j].0@);
                } else if i < n {
                    assert(out@[i] == s0[i]);
                }
            }
        }
        out
    }
}

/// Whether two spec names name different specs: different command names, different
/// special specs, or one of each.
pub open spec fn names_differ(a: SpecName, b: SpecName) -> bool {
    match (a, b) {
        (SpecName::Command(x), SpecName::Command(y)) => x@ != y@,
        (SpecName::Special(x), SpecName::Special(y)) => x != y,
        _ => true,
    }
}

/// The config that setting `name` to `spec` in `before` gives, as `Config::set` states it.
pub open spec fn set_in(before: Config, after: Config, name: SpecName, spec: Spec) -> bool {
    match name {
        SpecName::Command(c) => after.commands() == before.commands().insert(c@, spec) && after.specials()
            == before.specials(),
        SpecName::Special(s) => after.specials() == before.specials().insert(s, spec) && after.commands()
            == before.commands(),
    }
}

/// The config that removing `name` from `before` gives, as `Config::remove` states it.
pub open spec fn removed_from(before: Config, after: Config, name: SpecName) -> bool {
    match name {
        SpecName::Command(c) => after.commands() == before.commands().remove(c@) && after.specials()
            == before.specials(),
        SpecName::Special(s) => after.specials() == before.specials().remove(s) && after.commands()
            == before.commands(),
    }
}

/// Setting a name's spec makes it the spec found under that name, and changes the spec of
/// no other name.
pub proof fn law_set_then_get(before: Config, after: Config, name: SpecName, spec: Spec, other: SpecName)
    requires
        set_in(before, after, name, spec),
    ensures
        after.lookup(name) == Some(spec),
        names_differ(name, other) ==> after.lookup(other) == before.lookup(other),
{
}

/// Removing a name's spec leaves no spec under that name, and changes the spec of no other
/// name.
pub proof fn law_remove_then_get(before: Config, after: Config, name: SpecName, other: SpecName)
    requires
        removed_from(before, after, name),
    ensures
        after.lookup(name) is None,
        names_differ(name, other) ==> after.lookup(other) == before.lookup(other),
{
}

} // verus!
