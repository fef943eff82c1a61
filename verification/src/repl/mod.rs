//! The interactive shell's reading of its input: its configuration, the
//! commands it understands, and how it tells commands, definitions and
//! expressions apart. Reading lines, evaluating and printing are left to
//! the caller.

use vstd::prelude::*;
use crate::text::{owned, chars_of, string_from_chars, is_space, char_is_space};
use crate::storage::{join, join_path};

verus! {

/// Configuration for the REPL.
#[derive(Debug, Clone)]
pub struct ReplConfig {
    /// The prompt string.
    pub prompt: String,
    /// The history file path.
    pub history_file: Option<String>,
    /// Whether to show types of results.
    pub show_types: bool,
    /// Whether to enable color output.
    pub color: bool,
}

impl ReplConfig {
    /// The default configuration for a user whose home directory is `home`
    /// (the history goes in `.calvin_history` there, or in the current
    /// directory when there is no home).
    pub fn for_home(home: Option<&str>) -> (r: Self)
        ensures
            r.prompt@ == "> "@,
            r.history_file matches Some(h) && h@ == join_path(
                match home { Some(d) => d@, None => "."@ },
                ".calvin_history"@,
            ),
            !r.show_types,
            r.color,
    {
        let dir = match home {
            Some(d) => d,
            None => ".",
        };
        ReplConfig {
            prompt: owned("> "),
            history_file: Some(join(dir, ".calvin_history")),
            show_types: false,
            color: true,
        }
    }
}

impl Default for ReplConfig {
    /// The default configuration when no home directory is known.
    fn default() -> (r: Self)
        ensures
            r.prompt@ == "> "@,
            r.history_file matches Some(h) && h@ == join_path("."@, ".calvin_history"@),
            !r.show_types,
            r.color,
    {
        Self::for_home(None)
    }
}

/// `s` without its leading white space.
pub open spec fn trim_start(s: Seq<char>) -> Seq<char>
    decreases s.len(),
{
    if s.len() > 0 && is_space(s[0]) {
        trim_start(s.drop_first())
    } else {
        s
    }
}

/// `s` without its trailing white space.
pub open spec fn trim_end(s: Seq<char>) -> Seq<char>
    decreases s.len(),
{
    if s.len() > 0 && is_space(s.last()) {
        trim_end(s.drop_last())
    } else {
        s
    }
}

/// `s` without leading and trailing white space (as `str::trim`).
pub open spec fn trim(s: Seq<char>) -> Seq<char> {
    trim_end(trim_start(s))
}

/// Whether `s` begins with `p`.
pub open spec fn starts_with(s: Seq<char>, p: Seq<char>) -> bool {
    p.len() <= s.len() && s.subrange(0, p.len() as int) == p
}

/// Whether `t` occurs in `s`.
pub open spec fn contains_text(s: Seq<char>, t: Seq<char>) -> bool {
    exists|i: int| 0 <= i && i + t.len() <= s.len() && #[trigger] s.subrange(i, i + t.len()) == t
}

/// The position of the first `c` in `s`.
pub open spec fn first_index(s: Seq<char>, c: char) -> Option<int>
    decreases s.len(),
{
    if s.len() == 0 {
        None
    } else if s[0] == c {
        Some(0)
    } else {
        match first_index(s.drop_first(), c) {
            Some(i) => Some(i + 1),
            None => None,
        }
    }
}

/// The bounds of `trim(cs[start..end])` within `cs`.
fn trim_bounds(cs: &Vec<char>, start: usize, end: usize) -> (r: (usize, usize))
    requires
        start <= end <= cs@.len(),
    ensures
        start <= r.0 <= r.1 <= end,
        cs@.subrange(r.0 as int, r.1 as int) == trim(cs@.subrange(start as int, end as int)),
{
    let mut a = start;
    while a < end && char_is_space(cs[a])
        invariant
            start <= a <= end <= cs@.len(),
            trim_start(cs@.subrange(start as int, end as int)) == trim_start(cs@.subrange(a as int, end as int)),
        decreases end - a,
    {
        proof {
            assert(cs@.subrange(a as int, end as int).drop_first() =~= cs@.subrange(a + 1, end as int));
        }
        a += 1;
    }
    proof {
        if a < end {
            assert(cs@.subrange(a as int, end as int)[0] == cs@[a as int]);
        }
    }
    let mut b = end;
    assert(trim_start(cs@.subrange(start as int, end as int)) == cs@.subrange(a as int, end as int));
    while b > a && char_is_space(cs[b - 1])
        invariant
            start <= a <= b <= end <= cs@.len(),
            trim(cs@.subrange(start as int, end as int)) == trim_end(cs@.subrange(a as int, b as int)),
        decreases b - a,
    {
        proof {
            assert(cs@.subrange(a as int, b as int).drop_last() =~= cs@.subrange(a as int, b - 1));
        }
        b -= 1;
    }
    proof {
        if b > a {
            assert(cs@.subrange(a as int, b as int).last() == cs@[b - 1]);
        }
    }
    (a, b)
}

/// `s` without leading and trailing white space.
pub fn trimmed(s: &str) -> (r: String)
    ensures
        r@ == trim(s@),
{
    let cs = chars_of(s);
    let (a, b) = trim_bounds(&cs, 0, cs.len());
    assert(cs@.subrange(0, cs@.len() as int) =~= s@);
    string_from_chars(&cs, a, b)
}

/// Whether `cs[start..]` begins with `p`.
fn chars_start_with(cs: &Vec<char>, start: usize, p: &str) -> (r: bool)
    requires
        start <= cs@.len(),
    ensures
        r == starts_with(cs@.subrange(start as int, cs@.len() as int), p@),
{
    let ps = chars_of(p);
    let n = cs.len();
    if ps.len() > n - start {
        return false;
    }
    let mut i: usize = 0;
    while i < ps.len()
        invariant
            i <= ps@.len(),
            ps@ == p@,
            n == cs@.len(),
            start + ps@.len() <= n,
            forall|j: int| 0 <= j < i ==> cs@[start + j] == ps@[j],
        decreases ps.len() - i,
    {
        if cs[start + i] != ps[i] {
            proof {
                assert(cs@.subrange(start as int, cs@.len() as int).subrange(0, p@.len() as int)[i as int] != p@[i as int]);
            }
            return false;
        }
        i += 1;
    }
    assert(cs@.subrange(start as int, cs@.len() as int).subrange(0, p@.len() as int) =~= p@);
    true
}

/// Whether `t` occurs in `cs`.
fn chars_contain(cs: &Vec<char>, t: &str) -> (r: bool)
    ensures
        r == contains_text(cs@, t@),
{
    let ts = chars_of(t);
    let n = cs.len();
    let m = ts.len();
    if m == 0 {
        assert(t@.len() == 0);
        assert(cs@.subrange(0, 0int + t@.len()) =~= t@);
        return true;
    }
    if m > n {
        proof {
            assert forall|i: int| 0 <= i && i + t@.len() <= cs@.len() implies #[trigger] cs@.subrange(i, i + t@.len()) != t@ by {}
        }
        return false;
    }
    let mut i: usize = 0;
    while i <= n - m
        invariant
            ts@ == t@,
            m == t@.len(),
            n == cs@.len(),
            1 <= m <= n,
            i <= n - m + 1,
            forall|k: int| 0 <= k < i ==> #[trigger] cs@.subrange(k, k + t@.len()) != t@,
        decreases n - m + 1 - i,
    {
        proof {
            assert(cs@.subrange(i as int, cs@.len() as int).subrange(0, t@.len() as int) =~= cs@.subrange(i as int, i + t@.len()));
        }
        if chars_start_with(cs, i, t) {
            return true;
        }
        i += 1;
    }
    proof {
        assert forall|k: int| 0 <= k && k + t@.len() <= cs@.len() implies #[trigger] cs@.subrange(k, k + t@.len()) != t@ by {
            assert(k < i);
        }
    }
    false
}

/// A command of the interactive shell.
#[derive(Debug, PartialEq, Eq)]
pub enum ReplCommand {
    /// `:q` or `:quit`.
    Quit,
    /// `:h` or `:help`.
    Help,
    /// `:t` or `:type` with an expression.
    ShowType(String),
    /// `:t` or `:type` without an expression.
    TypeUsage,
    /// `:env`.
    ShowEnv,
    /// `:load` with a file name.
    Load(String),
    /// `:load` without a file name.
    LoadUsage,
    /// `:reset`.
    Reset,
    /// Anything else; carries the command word.
    Unknown(String),
}

/// The model of a command.
pub enum SCommand {
    Quit,
    Help,
    ShowType(Seq<char>),
    TypeUsage,
    ShowEnv,
    Load(Seq<char>),
    LoadUsage,
    Reset,
    Unknown(Seq<char>),
}

impl View for ReplCommand {
    type V = SCommand;

    open spec fn view(&self) -> SCommand {
        match self {
            ReplCommand::Quit => SCommand::Quit,
            ReplCommand::Help => SCommand::Help,
            ReplCommand::ShowType(a) => SCommand::ShowType(a@),
            ReplCommand::TypeUsage => SCommand::TypeUsage,
            ReplCommand::ShowEnv => SCommand::ShowEnv,
            ReplCommand::Load(a) => SCommand::Load(a@),
            ReplCommand::LoadUsage => SCommand::LoadUsage,
            ReplCommand::Reset => SCommand::Reset,
            ReplCommand::Unknown(w) => SCommand::Unknown(w@),
        }
    }
}

/// The command named by `word`, with the argument `arg`.
pub open spec fn command_of(word: Seq<char>, arg: Seq<char>) -> SCommand {
    if word == ":q"@ || word == ":quit"@ {
        SCommand::Quit
    } else if word == ":h"@ || word == ":help"@ {
        SCommand::Help
    } else if word == ":t"@ || word == ":type"@ {
        if arg.len() == 0 { SCommand::TypeUsage } else { SCommand::ShowType(arg) }
    } else if word == ":env"@ {
        SCommand::ShowEnv
    } else if word == ":load"@ {
        if arg.len() == 0 { SCommand::LoadUsage } else { SCommand::Load(arg) }
    } else if word == ":reset"@ {
        SCommand::Reset
    } else {
        SCommand::Unknown(word)
    }
}

/// The command word of a line: everything before its first space.
pub open spec fn command_word(line: Seq<char>) -> Seq<char> {
    match first_index(line, ' ') {
        Some(i) => line.subrange(0, i),
        None => line,
    }
}

/// The argument of a command line: what follows its first space, trimmed.
pub open spec fn command_arg(line: Seq<char>) -> Seq<char> {
    match first_index(line, ' ') {
        Some(i) => trim(line.subrange(i + 1, line.len() as int)),
        None => Seq::empty(),
    }
}

/// The position of the first `c` in `cs`.
fn find_char(cs: &Vec<char>, c: char) -> (r: Option<usize>)
    ensures
        r matches Some(i) ==> first_index(cs@, c) == Some(i as int) && i < cs@.len() && cs@[i as int] == c,
        r is None ==> first_index(cs@, c) is None,
{
    let mut i: usize = 0;
    assert(cs@.subrange(0, cs@.len() as int) =~= cs@);
    while i < cs.len()
        invariant
            i <= cs@.len(),
            first_index(cs@, c) == match first_index(cs@.subrange(i as int, cs@.len() as int), c) {
                Some(k) => Some(k + i),
                None => None,
            },
        decreases cs.len() - i,
    {
        proof {
            assert(cs@.subrange(i as int, cs@.len() as int).drop_first() =~= cs@.subrange(i + 1, cs@.len() as int));
        }
        if cs[i] == c {
            return Some(i);
        }
        i += 1;
    }
    None
}

/// Whether `cs` is exactly `t`.
fn chars_are(cs: &Vec<char>, start: usize, end: usize, t: &str) -> (r: bool)
    requires
        start <= end <= cs@.len(),
    ensures
        r == (cs@.subrange(start as int, end as int) == t@),
{
    let ts = chars_of(t);
    if ts.len() != end - start {
        return false;
    }
    let mut i: usize = 0;
    while i < ts.len()
        invariant
            i <= ts@.len(),
            ts@ == t@,
            start + ts@.len() == end <= cs@.len(),
            forall|j: int| 0 <= j < i ==> cs@[start + j] == ts@[j],
        decreases ts.len() - i,
    {
        if cs[start + i] != ts[i] {
            proof {
                assert(cs@.subrange(start as int, end as int)[i as int] != t@[i as int]);
            }
            return false;
        }
        i += 1;
    }
    assert(cs@.subrange(start as int, end as int) =~= t@);
    true
}

/// The command on a line that starts with `:` (the line as read, trimmed).
pub fn parse_command(line: &str) -> (r: ReplCommand)
    ensures
        r@ == command_of(command_word(line@), command_arg(line@)),
{
    let cs = chars_of(line);
    let n = cs.len();
    let (w_end, a_start, a_end) = match find_char(&cs, ' ') {
        Some(i) => {
            let (a, b) = trim_bounds(&cs, i + 1, cs.len());
            (i, a, b)
        }
        None => (cs.len(), cs.len(), cs.len()),
    };
    proof {
        assert(cs@.subrange(0, cs@.len() as int) =~= cs@);
        assert(cs@.subrange(cs@.len() as int, cs@.len() as int) =~= Seq::<char>::empty());
    }
    let ghost word = cs@.subrange(0, w_end as int);
    let ghost arg = cs@.subrange(a_start as int, a_end as int);
    assert(word == command_word(line@));
    assert(arg == command_arg(line@));
    if chars_are(&cs, 0, w_end, ":q") || chars_are(&cs, 0, w_end, ":quit") {
        ReplCommand::Quit
    } else if chars_are(&cs, 0, w_end, ":h") || chars_are(&cs, 0, w_end, ":help") {
        ReplCommand::Help
    } else if chars_are(&cs, 0, w_end, ":t") || chars_are(&cs, 0, w_end, ":type") {
        if a_start == a_end {
            ReplCommand::TypeUsage
        } else {
            ReplCommand::ShowType(string_from_chars(&cs, a_start, a_end))
        }
    } else if chars_are(&cs, 0, w_end, ":env") {
        ReplCommand::ShowEnv
    } else if chars_are(&cs, 0, w_end, ":load") {
        if a_start == a_end {
            ReplCommand::LoadUsage
        } else {
            ReplCommand::Load(string_from_chars(&cs, a_start, a_end))
        }
    } else if chars_are(&cs, 0, w_end, ":reset") {
        ReplCommand::Reset
    } else {
        ReplCommand::Unknown(string_from_chars(&cs, 0, w_end))
    }
}

/// Whether a line is a top-level definition: it starts with `let `, holds
/// an `=`, and has no ` in `.
pub open spec fn is_definition(line: Seq<char>) -> bool {
    starts_with(line, "let "@) && first_index(line, '=') is Some && !contains_text(line, " in "@)
}

/// The name and expression of a definition `let name = expr`: what comes
/// before and after its first `=` (after the `let `), each trimmed.
pub open spec fn definition_parts(line: Seq<char>) -> Option<(Seq<char>, Seq<char>)> {
    let rest = if starts_with(line, "let "@) { line.subrange(4, line.len() as int) } else { line };
    match first_index(rest, '=') {
        Some(i) => Some((trim(rest.subrange(0, i)), trim(rest.subrange(i + 1, rest.len() as int)))),
        None => None,
    }
}

/// What the shell does with a line it reads.
#[derive(Debug, PartialEq, Eq)]
pub enum ReplInput {
    /// Nothing (the line is blank).
    Skip,
    /// Run a command.
    Command(ReplCommand),
    /// Define `name` as the value of `expr`.
    Define { name: String, expr: String },
    /// Evaluate the line and print its value.
    Eval(String),
}

/// Where some `c` occurs in `s`, a first one does.
proof fn lemma_first_index_some(s: Seq<char>, c: char, k: int)
    requires
        0 <= k < s.len(),
        s[k] == c,
    ensures
        first_index(s, c) is Some,
    decreases s.len(),
{
    if s[0] != c {
        assert(s.drop_first()[k - 1] == c);
        lemma_first_index_some(s.drop_first(), c, k - 1);
    }
}

/// The first `c` found is a `c`, within `s`.
proof fn lemma_first_index_bounds(s: Seq<char>, c: char)
    ensures
        first_index(s, c) matches Some(i) ==> 0 <= i < s.len() && s[i] == c,
    decreases s.len(),
{
    if s.len() > 0 && s[0] != c {
        lemma_first_index_bounds(s.drop_first(), c);
    }
}

/// A definition line has an `=` after its `let `, so it splits into a name
/// and an expression.
proof fn lemma_definition_splits(line: Seq<char>)
    requires
        is_definition(line),
    ensures
        definition_parts(line) is Some,
{
    reveal_strlit("let ");
    lemma_first_index_bounds(line, '=');
    let j = first_index(line, '=')->0;
    assert(line.subrange(0, 4) == "let "@);
    if j < 4 {
        assert(line.subrange(0, 4)[j] == line[j]);
    }
    let rest = line.subrange(4, line.len() as int);
    assert(rest[j - 4] == '=');
    lemma_first_index_some(rest, '=', j - 4);
}

/// Whether `line` is a definition.
fn check_definition(cs: &Vec<char>) -> (r: bool)
    ensures
        r == is_definition(cs@),
{
    assert(cs@.subrange(0, cs@.len() as int) =~= cs@);
    chars_start_with(cs, 0, "let ") && find_char(cs, '=').is_some() && !chars_contain(cs, " in ")
}

/// The name and expression of a definition line (see `definition_parts`).
pub fn split_definition(line: &str) -> (r: Option<(String, String)>)
    ensures
        match definition_parts(line@) {
            Some((n, e)) => r matches Some((rn, re)) && rn@ == n && re@ == e,
            None => r is None,
        },
{
    let cs = chars_of(line);
    proof {
        reveal_strlit("let ");
        assert(cs@.subrange(0, cs@.len() as int) =~= cs@);
    }
    let start: usize = if chars_start_with(&cs, 0, "let ") { 4 } else { 0 };
    let ghost rest_spec = if starts_with(line@, "let "@) { line@.subrange(4, line@.len() as int) } else { line@ };
    let rest_chars = string_from_chars(&cs, start, cs.len());
    let rest = chars_of(rest_chars.as_str());
    assert(rest@ == rest_spec);
    assert(rest@.subrange(0, rest@.len() as int) =~= rest@);
    match find_char(&rest, '=') {
        Some(i) => {
            let (a, b) = trim_bounds(&rest, 0, i);
            let (c, d) = trim_bounds(&rest, i + 1, rest.len());
            Some((string_from_chars(&rest, a, b), string_from_chars(&rest, c, d)))
        }
        None => None,
    }
}

/// What the shell does with a line it reads at its prompt: blank lines
/// are skipped, lines starting with `:` are commands, definitions define,
/// and anything else is evaluated (each on the trimmed line).
pub fn classify_line(line: &str) -> (r: ReplInput)
    ensures
        ({
            let t = trim(line@);
            if t.len() == 0 {
                r is Skip
            } else if t[0] == ':' {
                r matches ReplInput::Command(c) && c@ == command_of(command_word(t), command_arg(t))
            } else if is_definition(t) {
                r matches ReplInput::Define { name, expr } && definition_parts(t) matches Some((n, e))
                    && name@ == n && expr@ == e
            } else {
                r matches ReplInput::Eval(e) && e@ == t
            }
        }),
{
    let t = trimmed(line);
    let cs = chars_of(t.as_str());
    if cs.len() == 0 {
        return ReplInput::Skip;
    }
    if cs[0] == ':' {
        return ReplInput::Command(parse_command(t.as_str()));
    }
    if check_definition(&cs) {
        proof {
            lemma_definition_splits(t@);
        }
        match split_definition(t.as_str()) {
            Some((name, expr)) => ReplInput::Define { name, expr },
            None => ReplInput::Eval(t),
        }
    } else {
        ReplInput::Eval(t)
    }
}

/// What the shell does with a line of a file it loads: blank lines and
/// comments (`--`) are skipped, definitions define, and anything else is
/// evaluated (each on the trimmed line).
pub fn classify_file_line(line: &str) -> (r: ReplInput)
    ensures
        ({
            let t = trim(line@);
            if t.len() == 0 || starts_with(t, "--"@) {
                r is Skip
            } else if is_definition(t) {
                r matches ReplInput::Define { name, expr } && definition_parts(t) matches Some((n, e))
                    && name@ == n && expr@ == e
            } else {
                r matches ReplInput::Eval(e) && e@ == t
            }
        }),
{
    let t = trimmed(line);
    let cs = chars_of(t.as_str());
    proof {
        assert(cs@.subrange(0, cs@.len() as int) =~= cs@);
    }
    if cs.len() == 0 || chars_start_with(&cs, 0, "--") {
        return ReplInput::Skip;
    }
    if check_definition(&cs) {
        proof {
            lemma_definition_splits(t@);
        }
        match split_definition(t.as_str()) {
            Some((name, expr)) => ReplInput::Define { name, expr },
            None => ReplInput::Eval(t),
        }
    } else {
        ReplInput::Eval(t)
    }
}

} // verus!
