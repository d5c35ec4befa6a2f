//! The exec tool: how a command is taken apart, and whether it may run in the sandbox.
use vstd::prelude::*;
use crate::config::ExecToolConfig;
use crate::error::{ErrorView, FrameworkError, SandboxCapability};
use crate::error;
use crate::paths::{NormalPath, PathView};
use crate::paths;
use crate::patterns::{compile_regex, regex_matches};
use crate::patterns;
use crate::sandbox::SandboxPolicy;
use crate::text;
use crate::tools::common::{ExecArgs, ExecArgsView, ToolExecutionKind};
use crate::tools::file_access::{resolve_path_for_read, FileEnv};
use crate::tools::file_access;

verus! {

/// What a piece of a command is.
#[derive(Debug, Clone, Copy, PartialEq, Eq, Structural)]
pub enum ShellTokenKind {
    Word,
    Operator,
}

/// A piece of a command.
#[derive(Debug, PartialEq, Eq)]
pub struct ShellToken {
    pub kind: ShellTokenKind,
    pub text: String,
}

/// What a piece of a command says.
#[verifier::ext_equal]
pub struct TokenView {
    pub kind: ShellTokenKind,
    pub text: Seq<char>,
}

impl View for ShellToken {
    type V = TokenView;

    open spec fn view(&self) -> TokenView {
        TokenView { kind: self.kind, text: self.text@ }
    }
}

/// What pieces of a command say.
pub open spec fn token_views(tokens: Seq<ShellToken>) -> Seq<TokenView> {
    Seq::new(tokens.len(), |i: int| tokens[i]@)
}

/// Which quotes are open.
#[derive(Debug, Clone, Copy, PartialEq, Eq, Structural)]
pub enum Quote {
    Plain,
    Single,
    Double,
}

/// The word that was read so far, if any was.
pub open spec fn word(current: Seq<char>) -> Seq<TokenView> {
    if current.len() == 0 {
        Seq::empty()
    } else {
        seq![TokenView { kind: ShellTokenKind::Word, text: current }]
    }
}

/// Whether a character stands between words.
pub open spec fn parts_words(c: char) -> bool {
    c == ' ' || c == '\t' || c == '\n'
}

/// Whether a character starts an operator.
pub open spec fn starts_operator(c: char) -> bool {
    c == '&' || c == '|' || c == ';' || c == '>' || c == '<'
}

/// How long the operator at a position is: all but the semicolon may be doubled.
pub open spec fn operator_len(s: Seq<char>, i: int) -> int {
    if i + 1 < s.len() && s[i + 1] == s[i] && s[i] != ';' {
        2
    } else {
        1
    }
}

/// Pieces in front of others, where there are any others.
pub open spec fn before(tokens: Seq<TokenView>, rest: Option<Seq<TokenView>>) -> Option<
    Seq<TokenView>,
> {
    match rest {
        Some(rest) => Some(tokens + rest),
        None => None,
    }
}

/// The pieces of a command from a position on, given which quotes are open and what of a word was
/// read.  A quote that is not closed makes them none.
pub open spec fn tokens_from(s: Seq<char>, i: int, quote: Quote, current: Seq<char>) -> Option<
    Seq<TokenView>,
>
    decreases s.len() - i,
{
    if i < 0 || i >= s.len() {
        if quote == Quote::Plain {
            Some(word(current))
        } else {
            None
        }
    } else {
        match quote {
            Quote::Single => if s[i] == '\'' {
                tokens_from(s, i + 1, Quote::Plain, current)
            } else {
                tokens_from(s, i + 1, Quote::Single, current.push(s[i]))
            },
            Quote::Double => if s[i] == '"' {
                tokens_from(s, i + 1, Quote::Plain, current)
            } else if s[i] == '\\' {
                if i + 1 < s.len() {
                    tokens_from(s, i + 2, Quote::Double, current.push(s[i + 1]))
                } else {
                    None
                }
            } else {
                tokens_from(s, i + 1, Quote::Double, current.push(s[i]))
            },
            Quote::Plain => if s[i] == '\'' {
                tokens_from(s, i + 1, Quote::Single, current)
            } else if s[i] == '"' {
                tokens_from(s, i + 1, Quote::Double, current)
            } else if s[i] == '\\' {
                if i + 1 < s.len() {
                    tokens_from(s, i + 2, Quote::Plain, current.push(s[i + 1]))
                } else {
                    Some(word(current))
                }
            } else if parts_words(s[i]) {
                before(word(current), tokens_from(s, i + 1, Quote::Plain, Seq::empty()))
            } else if starts_operator(s[i]) {
                let n = operator_len(s, i);
                let operator = TokenView {
                    kind: ShellTokenKind::Operator,
                    text: s.subrange(i, i + n),
                };
                before(
                    word(current).push(operator),
                    tokens_from(s, i + n, Quote::Plain, Seq::empty()),
                )
            } else {
                tokens_from(s, i + 1, Quote::Plain, current.push(s[i]))
            },
        }
    }
}

/// The pieces of a command.
pub open spec fn tokenized(command: Seq<char>) -> Option<Seq<TokenView>> {
    tokens_from(command, 0, Quote::Plain, Seq::empty())
}

/// Adds the word that was read, if any was.
fn push_word_token(tokens: &mut Vec<ShellToken>, current: String)
    ensures
        token_views(final(tokens)@) == token_views(old(tokens)@) + word(current@),
{
    let ghost known = token_views(tokens@);
    if current.as_str().is_empty() {
        assert(known + word(current@) =~= known);
        return ;
    }
    tokens.push(ShellToken { kind: ShellTokenKind::Word, text: current });
    assert(token_views(tokens@) =~= known + word(current@));
}

/// The pieces of a command, or nothing where a quote is not closed.
#[verifier::rlimit(60)]
pub fn tokenize_shell_command(command: &str) -> (r: Option<Vec<ShellToken>>)
    ensures
        match r {
            Some(tokens) => Some(token_views(tokens@)),
            None => None,
        } == tokenized(command@),
{
    let chars = text::chars_of(command);
    let ghost s = command@;
    let mut tokens: Vec<ShellToken> = Vec::new();
    let mut current = String::new();
    let mut quote = Quote::Plain;
    let mut i: usize = 0;
    proof {
        let rest = tokens_from(s, 0, Quote::Plain, Seq::empty());
        assert(current@ =~= Seq::<char>::empty());
        if rest is Some {
            assert(token_views(tokens@) + rest->0 =~= rest->0);
        }
    }
    while i < chars.len()
        invariant
            i <= chars@.len(),
            chars@ == s,
            s == command@,
            tokenized(s) == before(
                token_views(tokens@),
                tokens_from(s, i as int, quote, current@),
            ),
        decreases chars@.len() - i,
    {
        let c = chars[i];
        match quote {
            Quote::Single => {
                if c == '\'' {
                    quote = Quote::Plain;
                } else {
                    current.push(c);
                }
                i = i + 1;
            },
            Quote::Double => {
                if c == '"' {
                    quote = Quote::Plain;
                    i = i + 1;
                } else if c == '\\' {
                    if i + 1 >= chars.len() {
                        return None;
                    }
                    current.push(chars[i + 1]);
                    i = i + 2;
                } else {
                    current.push(c);
                    i = i + 1;
                }
            },
            Quote::Plain => {
                if c == '\'' {
                    quote = Quote::Single;
                    i = i + 1;
                } else if c == '"' {
                    quote = Quote::Double;
                    i = i + 1;
                } else if c == '\\' {
                    if i + 1 < chars.len() {
                        current.push(chars[i + 1]);
                        i = i + 2;
                    } else {
                        i = i + 1;
                    }
                } else if c == ' ' || c == '\t' || c == '\n' {
                    let ghost known = token_views(tokens@);
                    let ghost read = current@;
                    let rest_of_word = current;
                    current = String::new();
                    push_word_token(&mut tokens, rest_of_word);
                    proof {
                        assert(current@ =~= Seq::<char>::empty());
                        let rest = tokens_from(s, i + 1, Quote::Plain, Seq::empty());
                        if rest is Some {
                            assert(known + (word(read) + rest->0) =~= (known + word(read))
                                + rest->0);
                        }
                    }
                    i = i + 1;
                } else if c == '&' || c == '|' || c == ';' || c == '>' || c == '<' {
                    let ghost known = token_views(tokens@);
                    let ghost read = current@;
                    let rest_of_word = current;
                    current = String::new();
                    push_word_token(&mut tokens, rest_of_word);
                    let n: usize = if i + 1 < chars.len() && chars[i + 1] == c && c != ';' {
                        2
                    } else {
                        1
                    };
                    let operator = ShellToken {
                        kind: ShellTokenKind::Operator,
                        text: text::string_of_range(&chars, i, i + n),
                    };
                    let ghost told = operator@;
                    let ghost with_word = token_views(tokens@);
                    tokens.push(operator);
                    proof {
                        assert(current@ =~= Seq::<char>::empty());
                        assert(n == operator_len(s, i as int));
                        assert(token_views(tokens@) =~= with_word.push(told));
                        let rest = tokens_from(s, i + n, Quote::Plain, Seq::empty());
                        if rest is Some {
                            assert(known + (word(read).push(told) + rest->0) =~= token_views(
                                tokens@,
                            ) + rest->0);
                        }
                    }
                    i = i + n;
                } else {
                    current.push(c);
                    i = i + 1;
                }
            },
        }
    }
    match quote {
        Quote::Plain => {
            push_word_token(&mut tokens, current);
            Some(tokens)
        },
        _ => None,
    }
}

/// Whether a text stands between commands.
pub open spec fn separates(token: Seq<char>) -> bool {
    token == "&&"@ || token == "||"@ || token == ";"@ || token == "|"@
}

/// Whether a text stands between commands.
pub fn is_command_separator(token: &str) -> (r: bool)
    ensures
        r == separates(token@),
{
    text::same_text(token, "&&") || text::same_text(token, "||") || text::same_text(token, ";")
        || text::same_text(token, "|")
}

/// Whether a text sends output to a file.
pub open spec fn redirects(token: Seq<char>) -> bool {
    token == ">"@ || token == ">>"@ || token == "1>"@ || token == "1>>"@ || token == "2>"@
        || token == "2>>"@
}

/// Whether a text sends output to a file.
pub fn is_redirection_operator(token: &str) -> (r: bool)
    ensures
        r == redirects(token@),
{
    text::same_text(token, ">") || text::same_text(token, ">>") || text::same_text(token, "1>")
        || text::same_text(token, "1>>") || text::same_text(token, "2>") || text::same_text(
        token,
        "2>>",
    )
}

/// Whether a word sets a variable for a command.
pub open spec fn assigns(token: Seq<char>) -> bool {
    text::contains(token, "="@) && !text::starts_with(token, "="@)
}

/// Whether a word sets a variable for a command.
pub fn is_env_assignment(token: &str) -> (r: bool)
    ensures
        r == assigns(token@),
{
    text::has_text(token, "=") && !text::begins_with(token, "=")
}

/// Whether a command reaches out to the network.
pub open spec fn network_tool(name: Seq<char>) -> bool {
    name == "curl"@ || name == "wget"@ || name == "nc"@ || name == "ncat"@ || name == "netcat"@
        || name == "ssh"@ || name == "scp"@ || name == "rsync"@ || name == "ftp"@ || name == "sftp"@
        || name == "dig"@ || name == "nslookup"@ || name == "ping"@
}

/// Whether a command reaches out to the network.
pub fn is_network_tool(name: &str) -> (r: bool)
    ensures
        r == network_tool(name@),
{
    text::same_text(name, "curl") || text::same_text(name, "wget") || text::same_text(name, "nc")
        || text::same_text(name, "ncat") || text::same_text(name, "netcat") || text::same_text(
        name,
        "ssh",
    ) || text::same_text(name, "scp") || text::same_text(name, "rsync") || text::same_text(
        name,
        "ftp",
    ) || text::same_text(name, "sftp") || text::same_text(name, "dig") || text::same_text(
        name,
        "nslookup",
    ) || text::same_text(name, "ping")
}

/// The commands between the separators, and the one that has not ended yet.
pub open spec fn segmented(tokens: Seq<TokenView>) -> (Seq<Seq<TokenView>>, Seq<TokenView>)
    decreases tokens.len(),
{
    if tokens.len() == 0 {
        (Seq::empty(), Seq::empty())
    } else {
        let (done, open) = segmented(tokens.drop_last());
        if separates(tokens.last().text) {
            (
                if open.len() > 0 {
                    done.push(open)
                } else {
                    done
                },
                Seq::empty(),
            )
        } else {
            (done, open.push(tokens.last()))
        }
    }
}

/// The commands between the separators.
pub open spec fn segments(tokens: Seq<TokenView>) -> Seq<Seq<TokenView>> {
    let (done, open) = segmented(tokens);
    if open.len() > 0 {
        done.push(open)
    } else {
        done
    }
}

/// What commands say.
pub open spec fn segment_views(list: Seq<Vec<ShellToken>>) -> Seq<Seq<TokenView>> {
    Seq::new(list.len(), |i: int| token_views(list[i]@))
}

/// The commands between the separators.
pub fn split_shell_segments(tokens: Vec<ShellToken>) -> (r: Vec<Vec<ShellToken>>)
    ensures
        segment_views(r@) == segments(token_views(tokens@)),
{
    let ghost given = tokens@;
    let ghost all = token_views(given);
    let mut done: Vec<Vec<ShellToken>> = Vec::new();
    let mut open: Vec<ShellToken> = Vec::new();
    assert(all.take(0) =~= Seq::<TokenView>::empty());
    assert(segment_views(done@) =~= Seq::<Seq<TokenView>>::empty());
    assert(token_views(open@) =~= Seq::<TokenView>::empty());
    for token in iter: tokens
        invariant
            iter.seq() == given,
            all == token_views(given),
            (segment_views(done@), token_views(open@)) == segmented(
                all.take(iter.index() as int),
            ),
    {
        let ghost known = segment_views(done@);
        let ghost running = token_views(open@);
        proof {
            let k = iter.index() as int;
            assert(all.take(k + 1).drop_last() =~= all.take(k));
            assert(all.take(k + 1).last() == token@);
        }
        if is_command_separator(token.text.as_str()) {
            if open.len() > 0 {
                done.push(open);
                assert(segment_views(done@) =~= known.push(running));
                open = Vec::new();
            }
            assert(token_views(open@) =~= Seq::<TokenView>::empty());
        } else {
            open.push(token);
            assert(token_views(open@) =~= running.push(token@));
        }
    }
    assert(all.take(all.len() as int) =~= all);
    if open.len() > 0 {
        let ghost known = segment_views(done@);
        let ghost running = token_views(open@);
        done.push(open);
        assert(segment_views(done@) =~= known.push(running));
    }
    done
}

/// The first word from a position on.
pub open spec fn word_from(tokens: Seq<TokenView>, from: int) -> Option<Seq<char>>
    decreases tokens.len() - from,
{
    if from < 0 || from >= tokens.len() {
        None
    } else if tokens[from].kind == ShellTokenKind::Word {
        Some(tokens[from].text)
    } else {
        word_from(tokens, from + 1)
    }
}

/// The first word from a position on.
pub fn next_word(tokens: &Vec<ShellToken>, from: usize) -> (r: Option<String>)
    ensures
        text::opt_view(r) == word_from(token_views(tokens@), from as int),
{
    let mut i: usize = from;
    while i < tokens.len()
        invariant
            word_from(token_views(tokens@), from as int) == word_from(
                token_views(tokens@),
                i as int,
            ),
        decreases tokens@.len() - i,
    {
        match tokens[i].kind {
            ShellTokenKind::Word => {
                return Some(tokens[i].text.clone());
            },
            ShellTokenKind::Operator => {},
        }
        i = i + 1;
    }
    None
}

/// Where the name of a command stands: at the first word that sets no variable.
pub open spec fn command_from(tokens: Seq<TokenView>, from: int) -> Option<int>
    decreases tokens.len() - from,
{
    if from < 0 || from >= tokens.len() {
        None
    } else if tokens[from].kind == ShellTokenKind::Word && !assigns(tokens[from].text) {
        Some(from)
    } else {
        command_from(tokens, from + 1)
    }
}

/// Where the name of a command stands.
pub fn segment_command_index(tokens: &Vec<ShellToken>) -> (r: Option<usize>)
    ensures
        text::opt_pos(r) == command_from(token_views(tokens@), 0),
        r is Some ==> r->0 < tokens@.len(),
{
    let mut i: usize = 0;
    while i < tokens.len()
        invariant
            i <= tokens@.len(),
            command_from(token_views(tokens@), 0) == command_from(token_views(tokens@), i as int),
        decreases tokens@.len() - i,
    {
        match tokens[i].kind {
            ShellTokenKind::Word => {
                if !is_env_assignment(tokens[i].text.as_str()) {
                    return Some(i);
                }
            },
            ShellTokenKind::Operator => {},
        }
        i = i + 1;
    }
    None
}

/// The words from a position on that are no flags.
pub open spec fn plain_words(tokens: Seq<TokenView>, from: int) -> Seq<Seq<char>>
    decreases tokens.len() - from,
{
    if from < 0 || from >= tokens.len() {
        Seq::empty()
    } else {
        let rest = plain_words(tokens, from + 1);
        if tokens[from].kind == ShellTokenKind::Word && !text::starts_with(
            tokens[from].text,
            "-"@,
        ) {
            seq![tokens[from].text] + rest
        } else {
            rest
        }
    }
}

/// The words from a position on that are no flags.
pub fn non_flag_words(tokens: &Vec<ShellToken>, from: usize) -> (r: Vec<String>)
    ensures
        text::views(r@) == plain_words(token_views(tokens@), from as int),
{
    let ghost whole = plain_words(token_views(tokens@), from as int);
    let mut words: Vec<String> = Vec::new();
    let mut i: usize = from;
    assert(text::views(words@) + whole =~= whole);
    while i < tokens.len()
        invariant
            whole == text::views(words@) + plain_words(token_views(tokens@), i as int),
        decreases tokens@.len() - i,
    {
        let ghost known = text::views(words@);
        let ghost rest = plain_words(token_views(tokens@), i + 1);
        let plain = match tokens[i].kind {
            ShellTokenKind::Word => !text::begins_with(tokens[i].text.as_str(), "-"),
            ShellTokenKind::Operator => false,
        };
        if plain {
            words.push(tokens[i].text.clone());
            assert(text::views(words@) =~= known.push(tokens@[i as int]@.text));
            assert(known + (seq![tokens@[i as int]@.text] + rest) =~= known.push(
                tokens@[i as int]@.text,
            ) + rest);
        }
        i = i + 1;
    }
    assert(text::views(words@) + Seq::<Seq<char>>::empty() =~= text::views(words@));
    words
}

/// Which of a command's words name what it writes to.
pub open spec fn written_words(name: Seq<char>, words: Seq<Seq<char>>) -> Seq<Seq<char>> {
    if name == "touch"@ || name == "mkdir"@ || name == "rm"@ || name == "rmdir"@ || name
        == "truncate"@ || name == "tee"@ {
        words
    } else if (name == "cp"@ || name == "mv"@ || name == "install"@) && words.len() >= 1 {
        seq![words.last()]
    } else if name == "ln"@ && words.len() >= 2 {
        seq![words.last()]
    } else {
        Seq::empty()
    }
}

/// The last of some texts alone.
fn only_last(words: Vec<String>) -> (r: Vec<String>)
    requires
        words@.len() > 0,
    ensures
        text::views(r@) == seq![text::views(words@).last()],
{
    let mut only: Vec<String> = Vec::new();
    only.push(words[words.len() - 1].clone());
    assert(text::views(only@) =~= seq![text::views(words@).last()]);
    only
}

/// Which of a command's words name what it writes to.
pub fn write_targets(name: &str, words: Vec<String>) -> (r: Vec<String>)
    ensures
        text::views(r@) == written_words(name@, text::views(words@)),
{
    if text::same_text(name, "touch") || text::same_text(name, "mkdir") || text::same_text(
        name,
        "rm",
    ) || text::same_text(name, "rmdir") || text::same_text(name, "truncate") || text::same_text(
        name,
        "tee",
    ) {
        return words;
    }
    if (text::same_text(name, "cp") || text::same_text(name, "mv") || text::same_text(
        name,
        "install",
    )) && words.len() >= 1 {
        return only_last(words);
    }
    if text::same_text(name, "ln") && words.len() >= 2 {
        return only_last(words);
    }
    let none: Vec<String> = Vec::new();
    assert(text::views(none@) =~= Seq::<Seq<char>>::empty());
    none
}

/// Whether a command is dangerous whatever its arguments.
pub open spec fn high_risk(name: Seq<char>) -> bool {
    name == "chmod"@ || name == "chown"@ || name == "mount"@ || name == "umount"@
}

/// Whether a command is dangerous whatever its arguments.
pub fn is_high_risk(name: &str) -> (r: bool)
    ensures
        r == high_risk(name@),
{
    text::same_text(name, "chmod") || text::same_text(name, "chown") || text::same_text(
        name,
        "mount",
    ) || text::same_text(name, "umount")
}

/// How a command may run.
#[derive(Debug, PartialEq, Eq)]
pub enum ExecToolRoute {
    Sandboxed,
    NeedsApproval { capability: SandboxCapability, target: String, reason: String },
}

/// How a command may run, as it reads.
#[verifier::ext_equal]
pub enum RouteView {
    Sandboxed,
    NeedsApproval { capability: SandboxCapability, target: Seq<char>, reason: Seq<char> },
}

impl View for ExecToolRoute {
    type V = RouteView;

    open spec fn view(&self) -> RouteView {
        match self {
            ExecToolRoute::Sandboxed => RouteView::Sandboxed,
            ExecToolRoute::NeedsApproval { capability, target, reason } => {
                RouteView::NeedsApproval {
                    capability: *capability,
                    target: target@,
                    reason: reason@,
                }
            },
        }
    }
}

/// What is looked at in a command, one thing after another.
#[derive(Debug, PartialEq, Eq)]
pub enum WriteCheck {
    /// Where this text leads decides.
    Target(String),
    /// The command needs approval.
    Refuse { capability: SandboxCapability, target: String, reason: String },
}

/// What is looked at in a command, as it reads.
#[verifier::ext_equal]
pub enum CheckView {
    Target(Seq<char>),
    Refuse { capability: SandboxCapability, target: Seq<char>, reason: Seq<char> },
}

impl View for WriteCheck {
    type V = CheckView;

    open spec fn view(&self) -> CheckView {
        match self {
            WriteCheck::Target(target) => CheckView::Target(target@),
            WriteCheck::Refuse { capability, target, reason } => CheckView::Refuse {
                capability: *capability,
                target: target@,
                reason: reason@,
            },
        }
    }
}

/// What is looked at, as it reads.
pub open spec fn check_views(checks: Seq<WriteCheck>) -> Seq<CheckView> {
    Seq::new(checks.len(), |i: int| checks[i]@)
}

/// What a redirection at a position sends its output to.
pub open spec fn redirection_check(tokens: Seq<TokenView>, i: int) -> CheckView {
    match word_from(tokens, i + 1) {
        Some(target) => CheckView::Target(target),
        None => CheckView::Refuse {
            capability: SandboxCapability::Write,
            target: tokens[i].text,
            reason: "shell redirection target could not be resolved safely"@,
        },
    }
}

/// What the redirections among the first pieces of a command send their output to.
pub open spec fn redirection_checks(tokens: Seq<TokenView>, n: int) -> Seq<CheckView>
    decreases n,
{
    if n <= 0 {
        Seq::empty()
    } else {
        let known = redirection_checks(tokens, n - 1);
        if redirects(tokens[n - 1].text) {
            known.push(redirection_check(tokens, n - 1))
        } else {
            known
        }
    }
}

/// What words are looked at for where they lead; a single dash leads nowhere.
pub open spec fn target_checks(targets: Seq<Seq<char>>) -> Seq<CheckView>
    decreases targets.len(),
{
    if targets.len() == 0 {
        Seq::empty()
    } else {
        let known = target_checks(targets.drop_last());
        if targets.last() == "-"@ {
            known
        } else {
            known.push(CheckView::Target(targets.last()))
        }
    }
}

/// What the name and the arguments of a command are looked at for.
pub open spec fn command_checks(tokens: Seq<TokenView>) -> Seq<CheckView> {
    match command_from(tokens, 0) {
        Some(at) => {
            let name = tokens[at].text;
            if high_risk(name) {
                seq![
                    CheckView::Refuse {
                        capability: SandboxCapability::Exec,
                        target: name,
                        reason: name + " is treated as a high-risk exec operation"@,
                    },
                ]
            } else {
                target_checks(written_words(name, plain_words(tokens, at + 1)))
            }
        },
        None => Seq::empty(),
    }
}

/// What is looked at in one command: its redirections, then its name and arguments.
pub open spec fn segment_checks(tokens: Seq<TokenView>) -> Seq<CheckView> {
    redirection_checks(tokens, tokens.len() as int) + command_checks(tokens)
}

/// What is looked at in commands, one after another.
pub open spec fn all_checks(list: Seq<Seq<TokenView>>) -> Seq<CheckView>
    decreases list.len(),
{
    if list.len() == 0 {
        Seq::empty()
    } else {
        all_checks(list.drop_last()) + segment_checks(list.last())
    }
}

/// A route that needs approval.
fn approval(capability: SandboxCapability, target: &str, reason: &str) -> (r: ExecToolRoute)
    ensures
        r@ == (RouteView::NeedsApproval { capability, target: target@, reason: reason@ }),
{
    ExecToolRoute::NeedsApproval {
        capability,
        target: target.to_owned(),
        reason: reason.to_owned(),
    }
}

/// Adds one thing to look at.
fn push_check(checks: &mut Vec<WriteCheck>, check: WriteCheck)
    ensures
        check_views(final(checks)@) == check_views(old(checks)@).push(check@),
{
    let ghost known = check_views(checks@);
    checks.push(check);
    assert(check_views(checks@) =~= known.push(check@));
}

/// Adds what is looked at in one command.
fn push_segment_checks(tokens: &Vec<ShellToken>, checks: &mut Vec<WriteCheck>)
    ensures
        check_views(final(checks)@) == check_views(old(checks)@) + segment_checks(
            token_views(tokens@),
        ),
{
    let ghost start = check_views(checks@);
    let ghost all = token_views(tokens@);
    let mut i: usize = 0;
    assert(start + redirection_checks(all, 0) =~= start);
    while i < tokens.len()
        invariant
            i <= tokens@.len(),
            all == token_views(tokens@),
            check_views(checks@) == start + redirection_checks(all, i as int),
        decreases tokens@.len() - i,
    {
        let ghost known = redirection_checks(all, i as int);
        if is_redirection_operator(tokens[i].text.as_str()) {
            let check = match next_word(tokens, i + 1) {
                Some(target) => WriteCheck::Target(target),
                None => WriteCheck::Refuse {
                    capability: SandboxCapability::Write,
                    target: tokens[i].text.clone(),
                    reason: "shell redirection target could not be resolved safely".to_owned(),
                },
            };
            let ghost told = check@;
            push_check(checks, check);
            assert((start + known).push(told) =~= start + known.push(told));
        }
        i = i + 1;
    }
    let ghost found = redirection_checks(all, all.len() as int);
    let at: usize = match segment_command_index(tokens) {
        Some(at) => at,
        None => {
            assert(start + (found + Seq::<CheckView>::empty()) =~= start + found);
            return ;
        },
    };
    let name = tokens[at].text.as_str();
    if is_high_risk(name) {
        let reason = text::concat2(name, " is treated as a high-risk exec operation");
        let check = WriteCheck::Refuse {
            capability: SandboxCapability::Exec,
            target: name.to_owned(),
            reason,
        };
        let ghost told = check@;
        push_check(checks, check);
        assert((start + found).push(told) =~= start + (found + seq![told]));
        return ;
    }
    let targets = write_targets(name, non_flag_words(tokens, at + 1));
    let ghost words = text::views(targets@);
    let mut k: usize = 0;
    assert(start + (found + target_checks(words.take(0))) =~= start + found);
    while k < targets.len()
        invariant
            k <= targets@.len(),
            words == text::views(targets@),
            check_views(checks@) == start + (found + target_checks(words.take(k as int))),
        decreases targets@.len() - k,
    {
        let ghost known = target_checks(words.take(k as int));
        proof {
            assert(words.take(k + 1).drop_last() =~= words.take(k as int));
            assert(words.take(k + 1).last() == targets@[k as int]@);
        }
        if !text::same_text(targets[k].as_str(), "-") {
            let check = WriteCheck::Target(targets[k].clone());
            let ghost told = check@;
            push_check(checks, check);
            assert((start + (found + known)).push(told) =~= start + (found + known.push(told)));
        }
        k = k + 1;
    }
    assert(words.take(k as int) =~= words);
}

/// What is looked at in commands, one after another.
pub fn write_checks(list: &Vec<Vec<ShellToken>>) -> (r: Vec<WriteCheck>)
    ensures
        check_views(r@) == all_checks(segment_views(list@)),
{
    let ghost all = segment_views(list@);
    let mut checks: Vec<WriteCheck> = Vec::new();
    let mut i: usize = 0;
    assert(all.take(0) =~= Seq::<Seq<TokenView>>::empty());
    assert(check_views(checks@) =~= Seq::<CheckView>::empty());
    while i < list.len()
        invariant
            i <= list@.len(),
            all == segment_views(list@),
            check_views(checks@) == all_checks(all.take(i as int)),
        decreases list@.len() - i,
    {
        proof {
            assert(all.take(i + 1).drop_last() =~= all.take(i as int));
            assert(all.take(i + 1).last() == token_views(list@[i as int]@));
        }
        push_segment_checks(&list[i], &mut checks);
        i = i + 1;
    }
    assert(all.take(i as int) =~= all);
    checks
}

/// A shell that is handed a text with a variable in it.
pub const DYNAMIC_SHELL_PATTERN: &'static str =
    "(?:^|[;&|]\\s*)(?:bash|sh|zsh)\\s+-c\\s+([\\\"']).*\\$[A-Za-z_{]";

/// Whether a command does what cannot be judged beforehand, given whether it hands a shell a text
/// with a variable in it.
pub open spec fn ambiguous(command: Seq<char>, dynamic_shell: bool) -> bool {
    let lowered = text::lower(command);
    text::contains(lowered, "eval "@) || text::starts_with(lowered, "eval\t"@) || text::contains(
        lowered,
        "`"@,
    ) || text::contains(lowered, "$("@) || text::contains(lowered, "<("@) || text::contains(
        lowered,
        ">("@,
    ) || text::contains(lowered, "<<"@) || dynamic_shell
}

/// Whether a command hands a shell a text with a variable in it.  A pattern that did not compile
/// would find no such command harmless.
pub open spec fn hands_over_a_variable(command: Seq<char>) -> bool {
    patterns::regex_error(DYNAMIC_SHELL_PATTERN@) is Some || patterns::regex_found(
        DYNAMIC_SHELL_PATTERN@,
        command,
    )
}

/// Whether a command does what cannot be judged beforehand, given whether it hands a shell a text
/// with a variable in it.
pub fn is_ambiguous(command: &str, dynamic_shell: bool) -> (r: bool)
    ensures
        r == ambiguous(command@, dynamic_shell),
{
    let lowered = text::lowered(command);
    text::has_text(lowered.as_str(), "eval ") || text::begins_with(lowered.as_str(), "eval\t")
        || text::has_text(lowered.as_str(), "`") || text::has_text(lowered.as_str(), "$(")
        || text::has_text(lowered.as_str(), "<(") || text::has_text(lowered.as_str(), ">(")
        || text::has_text(lowered.as_str(), "<<") || dynamic_shell
}

/// Whether a command does what cannot be judged beforehand.
pub fn command_uses_ambiguous_shell_features(command: &str) -> (r: bool)
    ensures
        r == ambiguous(command@, hands_over_a_variable(command@)),
{
    let dynamic_shell = match compile_regex(DYNAMIC_SHELL_PATTERN) {
        Ok(regex) => regex_matches(&regex, command),
        Err(_) => true,
    };
    is_ambiguous(command, dynamic_shell)
}

/// What is known of a command before any path of it is followed.
#[derive(Debug, PartialEq, Eq)]
pub enum Preflight {
    /// The command's route is clear.
    Decided(ExecToolRoute),
    /// Where the command writes to decides.
    Checks(Vec<WriteCheck>),
}

/// What is known of a command, as it reads.
#[verifier::ext_equal]
pub enum PreflightView {
    Decided(RouteView),
    Checks(Seq<CheckView>),
}

impl View for Preflight {
    type V = PreflightView;

    open spec fn view(&self) -> PreflightView {
        match self {
            Preflight::Decided(route) => PreflightView::Decided(route@),
            Preflight::Checks(checks) => PreflightView::Checks(check_views(checks@)),
        }
    }
}

/// Whether a word among pieces is a command that reaches out to the network.
pub open spec fn uses_network(tokens: Seq<TokenView>) -> bool {
    exists|i: int|
        0 <= i < tokens.len() && (#[trigger] tokens[i]).kind == ShellTokenKind::Word
            && network_tool(tokens[i].text)
}

/// Whether a word among pieces is a command that reaches out to the network.
fn any_network_tool(tokens: &Vec<ShellToken>) -> (r: bool)
    ensures
        r == uses_network(token_views(tokens@)),
{
    let ghost all = token_views(tokens@);
    let mut i: usize = 0;
    while i < tokens.len()
        invariant
            i <= tokens@.len(),
            all == token_views(tokens@),
            forall|k: int|
                0 <= k < i ==> !((#[trigger] all[k]).kind == ShellTokenKind::Word && network_tool(
                    all[k].text,
                )),
        decreases tokens@.len() - i,
    {
        assert(all[i as int] == tokens@[i as int]@);
        let found = match tokens[i].kind {
            ShellTokenKind::Word => is_network_tool(tokens[i].text.as_str()),
            ShellTokenKind::Operator => false,
        };
        if found {
            return true;
        }
        i = i + 1;
    }
    false
}

/// The pieces of a command; none where it cannot be taken apart.
pub open spec fn pieces_or_none(command: Seq<char>) -> Seq<TokenView> {
    match tokenized(command) {
        Some(tokens) => tokens,
        None => Seq::empty(),
    }
}

/// What is known of a command, given whether it can be judged and whether the network is open.
pub open spec fn preflight_of(
    command: Seq<char>,
    is_ambiguous: bool,
    network_enabled: bool,
) -> PreflightView {
    let tokens = pieces_or_none(command);
    if is_ambiguous {
        PreflightView::Decided(
            RouteView::NeedsApproval {
                capability: SandboxCapability::Exec,
                target: command,
                reason: "command uses shell features that preflight cannot verify safely"@,
            },
        )
    } else if tokens.len() == 0 {
        PreflightView::Decided(
            RouteView::NeedsApproval {
                capability: SandboxCapability::Exec,
                target: command,
                reason: "command could not be parsed safely during exec preflight"@,
            },
        )
    } else if !network_enabled && uses_network(tokens) {
        PreflightView::Decided(
            RouteView::NeedsApproval {
                capability: SandboxCapability::Network,
                target: command,
                reason: "command appears to use network tooling outside the default exec sandbox policy"@,
            },
        )
    } else {
        PreflightView::Checks(all_checks(segments(tokens)))
    }
}

/// What is known of a command, given whether it can be judged and whether the network is open.
pub fn judge_command(command: &str, is_ambiguous: bool, network_enabled: bool) -> (r: Preflight)
    ensures
        r@ == preflight_of(command@, is_ambiguous, network_enabled),
{
    if is_ambiguous {
        return Preflight::Decided(
            approval(
                SandboxCapability::Exec,
                command,
                "command uses shell features that preflight cannot verify safely",
            ),
        );
    }
    let tokens = match tokenize_shell_command(command) {
        Some(tokens) => tokens,
        None => Vec::new(),
    };
    assert(token_views(tokens@) =~= pieces_or_none(command@));
    if tokens.len() == 0 {
        return Preflight::Decided(
            approval(
                SandboxCapability::Exec,
                command,
                "command could not be parsed safely during exec preflight",
            ),
        );
    }
    if !network_enabled && any_network_tool(&tokens) {
        return Preflight::Decided(
            approval(
                SandboxCapability::Network,
                command,
                "command appears to use network tooling outside the default exec sandbox policy",
            ),
        );
    }
    Preflight::Checks(write_checks(&split_shell_segments(tokens)))
}

/// What is known of a command under the given settings.
pub fn preflight(command: &str, config: &ExecToolConfig) -> (r: Preflight)
    ensures
        r@ == preflight_of(
            command@,
            ambiguous(command@, hands_over_a_variable(command@)),
            config.sandbox.network_enabled == Some(true),
        ),
{
    let network_enabled = match config.sandbox.network_enabled {
        Some(enabled) => enabled,
        None => false,
    };
    judge_command(command, command_uses_ambiguous_shell_features(command), network_enabled)
}

/// Whether a text stands for more than one path.
pub open spec fn globs(target: Seq<char>) -> bool {
    text::contains(target, "*"@) || text::contains(target, "?"@) || text::contains(target, "["@)
}

/// Whether a text stands for more than one path.
pub fn uses_glob(target: &str) -> (r: bool)
    ensures
        r == globs(target@),
{
    text::has_text(target, "*") || text::has_text(target, "?") || text::has_text(target, "[")
}

/// Whether a path leads into one of the directories.
pub open spec fn in_any(path: PathView, roots: Seq<PathView>) -> bool {
    exists|i: int| 0 <= i < roots.len() && path.within(#[trigger] roots[i])
}

/// What paths say.
pub open spec fn path_views(paths: Seq<NormalPath>) -> Seq<PathView> {
    Seq::new(paths.len(), |i: int| paths[i]@)
}

/// The directories as they are listed.
pub open spec fn rendered_roots(roots: Seq<PathView>) -> Seq<char> {
    text::join(Seq::new(roots.len(), |i: int| roots[i].render()), ", "@)
}

/// Where a text leads, or why that is not known.
pub open spec fn resolution_view(r: Result<NormalPath, FrameworkError>) -> Result<
    PathView,
    ErrorView,
> {
    match r {
        Ok(path) => Ok(path@),
        Err(error) => Err(error@),
    }
}

/// Whether writing to where a text leads is open, given where that is.
pub open spec fn target_verdict(
    target: Seq<char>,
    resolved: Result<PathView, ErrorView>,
    roots: Seq<PathView>,
) -> Result<Option<RouteView>, ErrorView> {
    if globs(target) {
        Ok(
            Some(
                RouteView::NeedsApproval {
                    capability: SandboxCapability::Write,
                    target,
                    reason: "write target uses glob expansion that preflight cannot verify safely"@,
                },
            ),
        )
    } else {
        match resolved {
            Err(error) => Err(error),
            Ok(path) => if in_any(path, roots) {
                Ok(None)
            } else {
                Ok(
                    Some(
                        RouteView::NeedsApproval {
                            capability: SandboxCapability::Write,
                            target: path.render(),
                            reason: "write target is outside the configured exec sandbox roots: "@
                                + rendered_roots(roots),
                        },
                    ),
                )
            },
        }
    }
}

/// What a verdict says.
pub open spec fn verdict_view(r: Result<Option<ExecToolRoute>, FrameworkError>) -> Result<
    Option<RouteView>,
    ErrorView,
> {
    match r {
        Ok(Some(route)) => Ok(Some(route@)),
        Ok(None) => Ok(None),
        Err(error) => Err(error@),
    }
}

/// Whether a path leads into one of the directories.
fn starts_with_any(path: &NormalPath, roots: &Vec<NormalPath>) -> (r: bool)
    ensures
        r == in_any(path@, path_views(roots@)),
{
    let ghost all = path_views(roots@);
    let mut i: usize = 0;
    while i < roots.len()
        invariant
            i <= roots@.len(),
            all == path_views(roots@),
            forall|k: int| 0 <= k < i ==> !path@.within(#[trigger] all[k]),
        decreases roots@.len() - i,
    {
        assert(all[i as int] == roots@[i as int]@);
        if path.strip_prefix(&roots[i]).is_some() {
            return true;
        }
        i = i + 1;
    }
    false
}

/// The directories as they are listed.
pub fn render_allowed_roots(roots: &Vec<NormalPath>) -> (r: String)
    ensures
        r@ == rendered_roots(path_views(roots@)),
{
    let ghost all = path_views(roots@);
    let ghost whole = Seq::new(all.len(), |i: int| all[i].render());
    let mut listed: Vec<String> = Vec::new();
    let mut i: usize = 0;
    while i < roots.len()
        invariant
            i <= roots@.len(),
            all == path_views(roots@),
            whole == Seq::new(all.len(), |i: int| all[i].render()),
            text::views(listed@) =~= whole.take(i as int),
        decreases roots@.len() - i,
    {
        let ghost known = text::views(listed@);
        listed.push(roots[i].display());
        i = i + 1;
        assert(text::views(listed@) =~= known.push(whole[i - 1]));
    }
    assert(whole.take(i as int) =~= whole);
    text::joined(&listed, ", ")
}

/// Whether writing to where a text leads is open, given where that is.
pub fn classify_write_target(
    target: &str,
    resolved: Result<NormalPath, FrameworkError>,
    roots: &Vec<NormalPath>,
) -> (r: Result<Option<ExecToolRoute>, FrameworkError>)
    ensures
        verdict_view(r) == target_verdict(
            target@,
            resolution_view(resolved),
            path_views(roots@),
        ),
{
    if uses_glob(target) {
        return Ok(
            Some(
                approval(
                    SandboxCapability::Write,
                    target,
                    "write target uses glob expansion that preflight cannot verify safely",
                ),
            ),
        );
    }
    match resolved {
        Err(error) => Err(error),
        Ok(path) => {
            if starts_with_any(&path, roots) {
                return Ok(None);
            }
            let reason = text::concat2(
                "write target is outside the configured exec sandbox roots: ",
                render_allowed_roots(roots).as_str(),
            );
            Ok(
                Some(
                    approval(SandboxCapability::Write, path.display().as_str(), reason.as_str()),
                ),
            )
        },
    }
}

/// A thing that is looked at, and where it leads.
pub type ResolvedCheck = (WriteCheck, Result<NormalPath, FrameworkError>);

/// A thing that is looked at, and where it leads, as it reads.
pub type ResolvedView = (CheckView, Result<PathView, ErrorView>);

/// Things that are looked at, and where they lead, as they read.
pub open spec fn resolved_views(checks: Seq<ResolvedCheck>) -> Seq<ResolvedView> {
    Seq::new(checks.len(), |i: int| (checks[i].0@, resolution_view(checks[i].1)))
}

/// What a thing that is looked at comes to.
pub open spec fn check_verdict(check: ResolvedView, roots: Seq<PathView>) -> Result<
    Option<RouteView>,
    ErrorView,
> {
    match check.0 {
        CheckView::Target(target) => target_verdict(target, check.1, roots),
        CheckView::Refuse { capability, target, reason } => Ok(
            Some(RouteView::NeedsApproval { capability, target, reason }),
        ),
    }
}

/// How a command may run: as the first thing says that has an objection, else in the sandbox.
pub open spec fn verdict(checks: Seq<ResolvedView>, roots: Seq<PathView>) -> Result<
    RouteView,
    ErrorView,
>
    decreases checks.len(),
{
    if checks.len() == 0 {
        Ok(RouteView::Sandboxed)
    } else {
        match verdict(checks.drop_last(), roots) {
            Ok(RouteView::Sandboxed) => match check_verdict(checks.last(), roots) {
                Ok(Some(route)) => Ok(route),
                Ok(None) => Ok(RouteView::Sandboxed),
                Err(error) => Err(error),
            },
            other => other,
        }
    }
}

/// What a result with a route says.
pub open spec fn route_result(r: Result<ExecToolRoute, FrameworkError>) -> Result<
    RouteView,
    ErrorView,
> {
    match r {
        Ok(route) => Ok(route@),
        Err(error) => Err(error@),
    }
}

/// How a command may run, given where each thing that is looked at leads.
pub fn classify_exec_command_access(checks: Vec<ResolvedCheck>, roots: &Vec<NormalPath>) -> (r: Result<
    ExecToolRoute,
    FrameworkError,
>)
    ensures
        route_result(r) == verdict(resolved_views(checks@), path_views(roots@)),
{
    let ghost given = checks@;
    let ghost all = resolved_views(given);
    let ghost places = path_views(roots@);
    let mut said: Result<ExecToolRoute, FrameworkError> = Ok(ExecToolRoute::Sandboxed);
    assert(all.take(0) =~= Seq::<ResolvedView>::empty());
    for pair in iter: checks
        invariant
            iter.seq() == given,
            all == resolved_views(given),
            places == path_views(roots@),
            route_result(said) == verdict(all.take(iter.index() as int), places),
    {
        proof {
            let k = iter.index() as int;
            assert(all.take(k + 1).drop_last() =~= all.take(k));
            assert(all.take(k + 1).last() == (pair.0@, resolution_view(pair.1)));
        }
        let open = match &said {
            Ok(ExecToolRoute::Sandboxed) => true,
            _ => false,
        };
        if open {
            let (check, lead) = pair;
            match check {
                WriteCheck::Target(target) => {
                    match classify_write_target(target.as_str(), lead, roots) {
                        Ok(Some(route)) => {
                            said = Ok(route);
                        },
                        Ok(None) => {},
                        Err(error) => {
                            said = Err(error);
                        },
                    }
                },
                WriteCheck::Refuse { capability, target, reason } => {
                    said = Ok(ExecToolRoute::NeedsApproval { capability, target, reason });
                },
            }
        }
    }
    assert(all.take(all.len() as int) =~= all);
    said
}

/// A command that runs in the sandbox without approval writes, as far as it was looked at, only
/// into the open directories.
pub proof fn law_sandboxed_commands_write_inside(
    checks: Seq<ResolvedView>,
    roots: Seq<PathView>,
    i: int,
)
    requires
        verdict(checks, roots) == Ok::<RouteView, ErrorView>(RouteView::Sandboxed),
        0 <= i < checks.len(),
    ensures
        checks[i].0 is Target,
        !globs(checks[i].0->Target_0),
        checks[i].1 is Ok,
        in_any(checks[i].1->Ok_0, roots),
    decreases checks.len(),
{
    if i < checks.len() - 1 {
        law_sandboxed_commands_write_inside(checks.drop_last(), roots, i);
    } else {
        assert(check_verdict(checks.last(), roots) == Ok::<Option<RouteView>, ErrorView>(None));
    }
}

/// Without an open network, a command that names a network tool needs approval.
pub proof fn law_network_tools_need_approval(command: Seq<char>, is_ambiguous: bool)
    requires
        uses_network(pieces_or_none(command)),
    ensures
        preflight_of(command, is_ambiguous, false) is Decided,
        preflight_of(command, is_ambiguous, false)->Decided_0 is NeedsApproval,
{
}

/// The path with the deepest part of it that exists put in its true form: what is behind that part
/// stays.
pub fn with_true_ancestor(path: &NormalPath, kept: usize, true_ancestor: NormalPath) -> (r:
    NormalPath)
    requires
        kept <= path.parts@.len(),
    ensures
        r@ == (PathView {
            absolute: true_ancestor@.absolute,
            parts: true_ancestor@.parts + path@.parts.skip(kept as int),
        }),
{
    let ghost base = true_ancestor@.parts;
    let mut parts = true_ancestor.parts;
    let mut i: usize = kept;
    assert(base + path@.parts.subrange(kept as int, kept as int) =~= base);
    while i < path.parts.len()
        invariant
            kept <= i <= path.parts@.len(),
            text::views(parts@) == base + path@.parts.subrange(kept as int, i as int),
        decreases path.parts@.len() - i,
    {
        let ghost known = text::views(parts@);
        parts.push(path.parts[i].clone());
        i = i + 1;
        assert(text::views(parts@) =~= known.push(path@.parts[i - 1]));
        assert(base + path@.parts.subrange(kept as int, i as int) =~= known.push(
            path@.parts[i - 1],
        ));
    }
    assert(path@.parts.subrange(kept as int, path@.parts.len() as int) =~= path@.parts.skip(
        kept as int,
    ));
    NormalPath { absolute: true_ancestor.absolute, parts }
}

/// How many parts of a path lead to something that exists, given for each number of parts from all
/// of them down to none whether they do.
pub fn existing_depth(exists: &Vec<bool>, depth: usize) -> (r: usize)
    requires
        exists@.len() == depth + 1,
    ensures
        r <= depth,
        forall|k: int| r < k <= depth ==> !(#[trigger] exists@[depth - k]),
        r > 0 ==> exists@[depth - r],
{
    let mut n: usize = depth;
    while n > 0 && !exists[depth - n]
        invariant
            n <= depth,
            exists@.len() == depth + 1,
            forall|k: int| n < k <= depth ==> !(#[trigger] exists@[depth - k]),
        decreases n,
    {
        n = n - 1;
    }
    n
}

/// The exec tool, with its settings.
#[derive(Debug, PartialEq, Eq)]
pub struct ExecTool {
    pub config: ExecToolConfig,
}

/// A command that may run, once it is known where it writes to.
#[derive(Debug, PartialEq, Eq)]
pub struct ExecDraft {
    pub command: String,
    pub background: bool,
    pub timeout_seconds: u64,
    pub env: Vec<(String, String)>,
    pub workdir: String,
    pub preflight: Preflight,
}

/// What is run, where, and how.
#[derive(Debug, PartialEq, Eq)]
pub struct ExecPlan {
    pub command: String,
    pub background: bool,
    pub timeout_seconds: u64,
    pub env: Vec<(String, String)>,
    pub workdir: String,
    pub route: ExecToolRoute,
}

/// Where a command runs.
pub open spec fn run_dir(workdir: Option<Seq<char>>, place: FileEnv) -> Result<
    Seq<char>,
    ErrorView,
> {
    match workdir {
        Some(workdir) => match file_access::tool_path(
            workdir,
            place.workspace_root@,
            place.env@,
            text::opt_view(place.home),
        ) {
            Ok(path) => Ok(path.render()),
            Err(error) => Err(error),
        },
        None => Ok(place.workspace_root@),
    }
}

/// Where a command runs, if it may run at all: it says something, and what runs behind the scenes
/// must be allowed to.
pub open spec fn admitted(
    args: ExecArgsView,
    place: FileEnv,
    allow_background: bool,
    allow_async_tools: bool,
    is_dir: bool,
) -> Result<Seq<char>, ErrorView> {
    if text::trim(args.command).len() == 0 {
        Err(ErrorView::Tool("exec requires a non-empty command"@))
    } else if args.background && !allow_background {
        Err(
            ErrorView::Tool("exec background mode is disabled by tools.exec.allow_background"@),
        )
    } else if args.background && !allow_async_tools {
        Err(ErrorView::Tool("background async tools are not allowed in delegated runs"@))
    } else {
        match run_dir(args.workdir, place) {
            Err(error) => Err(error),
            Ok(workdir) => if is_dir {
                Ok(workdir)
            } else {
                Err(ErrorView::Tool("exec workdir must be a directory: "@ + workdir))
            },
        }
    }
}

/// Where a command runs.
pub fn workdir_of(workdir: &Option<String>, place: &FileEnv) -> (r: Result<String, FrameworkError>)
    ensures
        error::text_result(r) == run_dir(text::opt_view(*workdir), *place),
{
    match workdir {
        Some(workdir) => match resolve_path_for_read(
            workdir.as_str(),
            place.workspace_root.as_str(),
            &place.env,
            &place.home,
        ) {
            Ok(path) => Ok(path.display()),
            Err(error) => Err(error),
        },
        None => Ok(place.workspace_root.clone()),
    }
}

impl ExecTool {
    /// What the tool is called.
    pub fn name(&self) -> (r: &'static str)
        ensures
            r@ == "exec"@,
    {
        "exec"
    }

    /// What the tool is for.
    pub fn description(&self) -> (r: &'static str)
        ensures
            r@ == if self.config.allow_background {
                "Run local shell commands using JSON: {command, workdir?, background?}. Returns JSON string."@
            } else {
                "Run local shell commands using JSON: {command, workdir?}. Returns JSON string."@
            },
    {
        if self.config.allow_background {
            "Run local shell commands using JSON: {command, workdir?, background?}. Returns JSON string."
        } else {
            "Run local shell commands using JSON: {command, workdir?}. Returns JSON string."
        }
    }

    /// What arguments the tool takes.
    pub fn input_schema_json(&self) -> (r: &'static str)
        ensures
            r@ == if self.config.allow_background {
                "{\"type\":\"object\",\"properties\":{\"command\":{\"type\":\"string\"},\"workdir\":{\"type\":\"string\"},\"background\":{\"type\":\"boolean\"}},\"required\":[\"command\"]}"@
            } else {
                "{\"type\":\"object\",\"properties\":{\"command\":{\"type\":\"string\"},\"workdir\":{\"type\":\"string\"}},\"required\":[\"command\"]}"@
            },
    {
        if self.config.allow_background {
            "{\"type\":\"object\",\"properties\":{\"command\":{\"type\":\"string\"},\"workdir\":{\"type\":\"string\"},\"background\":{\"type\":\"boolean\"}},\"required\":[\"command\"]}"
        } else {
            "{\"type\":\"object\",\"properties\":{\"command\":{\"type\":\"string\"},\"workdir\":{\"type\":\"string\"}},\"required\":[\"command\"]}"
        }
    }

    /// How the tool can run.
    pub fn supported_execution_kinds(&self) -> (r: Vec<ToolExecutionKind>)
        ensures
            r@ == seq![ToolExecutionKind::Direct, ToolExecutionKind::HostSandbox],
    {
        vec![ToolExecutionKind::Direct, ToolExecutionKind::HostSandbox]
    }

    /// Sets whether commands may run behind the scenes.
    pub fn set_allow_background(&mut self, allow_background: bool)
        ensures
            *final(self) == (ExecTool {
                config: ExecToolConfig { allow_background, ..old(self).config },
            }),
    {
        self.config.allow_background = allow_background;
    }

    /// What a command in the sandbox may do.
    pub fn sandbox_policy(&self) -> (r: SandboxPolicy)
        ensures
            r.network_enabled == (self.config.sandbox.network_enabled == Some(true)),
            text::views(r.extra_writable_paths@) == text::views(
                self.config.sandbox.extra_writable_paths@,
            ),
    {
        let given = &self.config.sandbox.extra_writable_paths;
        let mut paths: Vec<String> = Vec::new();
        let mut i: usize = 0;
        while i < given.len()
            invariant
                i <= given@.len(),
                text::views(paths@) =~= text::views(given@).take(i as int),
            decreases given@.len() - i,
        {
            let ghost before = text::views(paths@);
            paths.push(given[i].clone());
            assert(text::views(paths@) =~= before.push(given@[i as int]@));
            i = i + 1;
        }
        assert(text::views(given@).take(given@.len() as int) =~= text::views(given@));
        SandboxPolicy {
            network_enabled: match self.config.sandbox.network_enabled {
                Some(enabled) => enabled,
                None => false,
            },
            extra_writable_paths: paths,
        }
    }

    /// How many seconds a command in the sandbox may take.
    pub fn sandbox_timeout_seconds(&self) -> (r: u64)
        ensures
            r == match self.config.timeout_seconds {
                Some(seconds) => seconds,
                None => 120,
            },
    {
        match self.config.timeout_seconds {
            Some(seconds) => seconds,
            None => 120,
        }
    }

    /// What is run, as far as it is known before it is known where the command writes to; or why
    /// nothing is run.
    pub fn plan(
        &self,
        args: &ExecArgs,
        place: &FileEnv,
        env: Vec<(String, String)>,
        allow_async_tools: bool,
        is_dir: bool,
    ) -> (r: Result<ExecDraft, FrameworkError>)
        ensures
            match r {
                Ok(draft) => Ok::<Seq<char>, ErrorView>(draft.workdir@),
                Err(error) => Err(error@),
            } == admitted(
                args@,
                *place,
                self.config.allow_background,
                allow_async_tools,
                is_dir,
            ),
            r is Ok ==> {
                let draft = r->Ok_0;
                &&& draft.command@ == text::trim(args.command@)
                &&& draft.background == args.background
                &&& draft.timeout_seconds == match self.config.timeout_seconds {
                    Some(seconds) => seconds,
                    None => 20,
                }
                &&& draft.env == env
                &&& draft.preflight@ == preflight_of(
                    draft.command@,
                    ambiguous(draft.command@, hands_over_a_variable(draft.command@)),
                    self.config.sandbox.network_enabled == Some(true),
                )
            },
    {
        let command = text::trimmed(args.command.as_str());
        if command.as_str().is_empty() {
            return Err(error::tool_error("exec requires a non-empty command"));
        }
        if args.background && !self.config.allow_background {
            return Err(
                error::tool_error(
                    "exec background mode is disabled by tools.exec.allow_background",
                ),
            );
        }
        if args.background && !allow_async_tools {
            return Err(
                error::tool_error("background async tools are not allowed in delegated runs"),
            );
        }
        let workdir = match workdir_of(&args.workdir, place) {
            Ok(workdir) => workdir,
            Err(error) => {
                return Err(error);
            },
        };
        if !is_dir {
            return Err(
                FrameworkError::Tool(
                    text::concat2("exec workdir must be a directory: ", workdir.as_str()),
                ),
            );
        }
        let preflight = preflight(command.as_str(), &self.config);
        Ok(
            ExecDraft {
                command,
                background: args.background,
                timeout_seconds: match self.config.timeout_seconds {
                    Some(seconds) => seconds,
                    None => 20,
                },
                env,
                workdir,
                preflight,
            },
        )
    }
}

/// Things that are looked at with where they lead.
pub open spec fn led(checks: Seq<CheckView>, leads: Seq<Result<NormalPath, FrameworkError>>) -> Seq<
    ResolvedView,
> {
    Seq::new(
        if checks.len() < leads.len() {
            checks.len()
        } else {
            leads.len()
        },
        |i: int| (checks[i], resolution_view(leads[i])),
    )
}

/// How a command runs: as is clear, or as the places decide that it writes to.
pub open spec fn routed(
    preflight: PreflightView,
    leads: Seq<Result<NormalPath, FrameworkError>>,
    roots: Result<Seq<PathView>, ErrorView>,
) -> Result<RouteView, ErrorView> {
    match preflight {
        PreflightView::Decided(route) => Ok(route),
        PreflightView::Checks(checks) => match roots {
            Err(error) => Err(error),
            Ok(roots) => verdict(led(checks, leads), roots),
        },
    }
}

/// Things that are looked at with where they lead.
fn pair_up(checks: Vec<WriteCheck>, leads: Vec<Result<NormalPath, FrameworkError>>) -> (r: Vec<
    ResolvedCheck,
>)
    requires
        checks@.len() == leads@.len(),
    ensures
        resolved_views(r@) == led(check_views(checks@), leads@),
{
    let ghost given = checks@;
    let ghost all_leads = leads@;
    let ghost wanted = led(check_views(given), all_leads);
    let mut pairs: Vec<ResolvedCheck> = Vec::new();
    let mut checks = checks;
    let mut leads = leads;
    while checks.len() > 0
        invariant
            checks@.len() == leads@.len(),
            given.len() == all_leads.len(),
            checks@ =~= given.take(checks@.len() as int),
            leads@ =~= all_leads.take(checks@.len() as int),
            checks@.len() <= given.len(),
            wanted == led(check_views(given), all_leads),
            pairs@.len() == given.len() - checks@.len(),
            forall|k: int|
                0 <= k < pairs@.len() ==> #[trigger] resolved_views(pairs@)[k] == wanted[k
                    + checks@.len()],
        decreases checks@.len(),
    {
        let ghost before = pairs@;
        let ghost n = checks@.len() - 1;
        let check = checks.pop();
        let lead = leads.pop();
        if let (Some(check), Some(lead)) = (check, lead) {
            let ghost added = (check@, resolution_view(lead));
            pairs.insert(0, (check, lead));
            proof {
                assert(added == wanted[n]);
                assert forall|k: int| 0 <= k < pairs@.len() implies (
                #[trigger] resolved_views(pairs@)[k]) == wanted[k + n] by {
                    if k > 0 {
                        assert(resolved_views(pairs@)[k] == resolved_views(before)[k - 1]);
                    }
                }
            }
        }
    }
    assert(resolved_views(pairs@) =~= wanted);
    pairs
}

/// Whether what is looked at finds a place open that a command writes to: its text has no glob, and
/// where it was found to lead is in one of the directories.
pub open spec fn found_open(
    target: Seq<char>,
    looked_at: Seq<ResolvedView>,
    roots: Seq<PathView>,
) -> bool {
    &&& !globs(target)
    &&& exists|j: int|
        0 <= j < looked_at.len() && (#[trigger] looked_at[j]).0 == CheckView::Target(target)
            && looked_at[j].1 is Ok && in_any(looked_at[j].1->Ok_0, roots)
}

/// Whether a command keeps to what is open: it is not a high-risk one, and every place that it
/// sends output or writes to is known and open.
pub open spec fn keeps_inside(
    segment: Seq<TokenView>,
    looked_at: Seq<ResolvedView>,
    roots: Seq<PathView>,
) -> bool {
    &&& forall|i: int|
        0 <= i < segment.len() && redirects((#[trigger] segment[i]).text) ==> match word_from(
            segment,
            i + 1,
        ) {
            Some(target) => found_open(target, looked_at, roots),
            None => false,
        }
    &&& match command_from(segment, 0) {
        Some(at) => {
            let name = segment[at].text;
            let targets = written_words(name, plain_words(segment, at + 1));
            &&& !high_risk(name)
            &&& forall|i: int|
                0 <= i < targets.len() && #[trigger] targets[i] != "-"@ ==> found_open(
                    targets[i],
                    looked_at,
                    roots,
                )
        },
        None => true,
    }
}

/// A redirection among the first pieces is looked at.
proof fn lemma_redirection_looked_at(tokens: Seq<TokenView>, n: int, i: int) -> (j: int)
    requires
        0 <= i < n <= tokens.len(),
        redirects(tokens[i].text),
    ensures
        0 <= j < redirection_checks(tokens, n).len(),
        redirection_checks(tokens, n)[j] == redirection_check(tokens, i),
    decreases n,
{
    if i == n - 1 {
        redirection_checks(tokens, n).len() - 1
    } else {
        lemma_redirection_looked_at(tokens, n - 1, i)
    }
}

/// A word that names a place is looked at.
proof fn lemma_target_looked_at(targets: Seq<Seq<char>>, i: int) -> (j: int)
    requires
        0 <= i < targets.len(),
        targets[i] != "-"@,
    ensures
        0 <= j < target_checks(targets).len(),
        target_checks(targets)[j] == CheckView::Target(targets[i]),
    decreases targets.len(),
{
    if i == targets.len() - 1 {
        target_checks(targets).len() - 1
    } else {
        let before = targets.drop_last();
        assert(before[i] == targets[i]);
        lemma_target_looked_at(before, i)
    }
}

/// What is looked at in one command is looked at in all of them.
proof fn lemma_segment_looked_at(list: Seq<Seq<TokenView>>, k: int, i: int) -> (j: int)
    requires
        0 <= k < list.len(),
        0 <= i < segment_checks(list[k]).len(),
    ensures
        0 <= j < all_checks(list).len(),
        all_checks(list)[j] == segment_checks(list[k])[i],
    decreases list.len(),
{
    let before = list.drop_last();
    if k == list.len() - 1 {
        all_checks(before).len() + i
    } else {
        assert(before[k] == list[k]);
        lemma_segment_looked_at(before, k, i)
    }
}

/// A command line that runs in the sandbox without approval can be judged, names no network tool
/// unless the network is open, and each of its commands keeps to what is open.
pub proof fn law_sandboxed_command_lines_keep_inside(
    command: Seq<char>,
    dynamic_shell: bool,
    network_enabled: bool,
    leads: Seq<Result<NormalPath, FrameworkError>>,
    roots: Seq<PathView>,
)
    requires
        preflight_of(command, ambiguous(command, dynamic_shell), network_enabled) matches
            PreflightView::Checks(checks) ==> leads.len() == checks.len(),
        routed(
            preflight_of(command, ambiguous(command, dynamic_shell), network_enabled),
            leads,
            Ok(roots),
        ) == Ok::<RouteView, ErrorView>(RouteView::Sandboxed),
    ensures
        !ambiguous(command, dynamic_shell),
        pieces_or_none(command).len() > 0,
        network_enabled || !uses_network(pieces_or_none(command)),
        ({
            let list = segments(pieces_or_none(command));
            let looked_at = led(all_checks(list), leads);
            forall|k: int|
                0 <= k < list.len() ==> keeps_inside(#[trigger] list[k], looked_at, roots)
        }),
{
    let list = segments(pieces_or_none(command));
    let checks = all_checks(list);
    let looked_at = led(checks, leads);
    assert forall|k: int| 0 <= k < list.len() implies keeps_inside(
        #[trigger] list[k],
        looked_at,
        roots,
    ) by {
        let segment = list[k];
        let sent = redirection_checks(segment, segment.len() as int);
        let named = command_checks(segment);
        assert forall|i: int|
            0 <= i < segment.len() && redirects((#[trigger] segment[i]).text) implies match word_from(
            segment,
            i + 1,
        ) {
            Some(target) => found_open(target, looked_at, roots),
            None => false,
        } by {
            let a = lemma_redirection_looked_at(segment, segment.len() as int, i);
            assert(segment_checks(segment)[a] == sent[a]);
            let j = lemma_segment_looked_at(list, k, a);
            law_sandboxed_commands_write_inside(looked_at, roots, j);
            assert(looked_at[j].0 == redirection_check(segment, i));
        }
        if let Some(at) = command_from(segment, 0) {
            let name = segment[at].text;
            let targets = written_words(name, plain_words(segment, at + 1));
            if high_risk(name) {
                assert(segment_checks(segment)[sent.len() as int] == named[0]);
                let j = lemma_segment_looked_at(list, k, sent.len() as int);
                law_sandboxed_commands_write_inside(looked_at, roots, j);
                assert(false);
            }
            assert forall|i: int| 0 <= i < targets.len() && #[trigger] targets[i] != "-"@ implies
                found_open(targets[i], looked_at, roots) by {
                let a = lemma_target_looked_at(targets, i);
                assert(segment_checks(segment)[sent.len() + a] == named[a]);
                let j = lemma_segment_looked_at(list, k, sent.len() + a);
                law_sandboxed_commands_write_inside(looked_at, roots, j);
                assert(looked_at[j].0 == CheckView::Target(targets[i]));
            }
        }
    }
}

impl ExecDraft {
    /// What is run, given where each thing leads that is looked at, and the directories that the
    /// command may write to or why they are not known.
    pub fn finish(
        self,
        leads: Vec<Result<NormalPath, FrameworkError>>,
        roots: Result<Vec<NormalPath>, FrameworkError>,
    ) -> (r: Result<ExecPlan, FrameworkError>)
        requires
            self.preflight@ matches PreflightView::Checks(checks) ==> leads@.len() == checks.len(),
        ensures
            match r {
                Ok(plan) => Ok::<RouteView, ErrorView>(plan.route@),
                Err(error) => Err(error@),
            } == routed(
                self.preflight@,
                leads@,
                match roots {
                    Ok(roots) => Ok(path_views(roots@)),
                    Err(error) => Err(error@),
                },
            ),
            r is Ok ==> {
                let plan = r->Ok_0;
                &&& plan.command == self.command
                &&& plan.background == self.background
                &&& plan.timeout_seconds == self.timeout_seconds
                &&& plan.env == self.env
                &&& plan.workdir == self.workdir
            },
    {
        let route = match self.preflight {
            Preflight::Decided(route) => route,
            Preflight::Checks(checks) => {
                let roots = match roots {
                    Ok(roots) => roots,
                    Err(error) => {
                        return Err(error);
                    },
                };
                match classify_exec_command_access(pair_up(checks, leads), &roots) {
                    Ok(route) => route,
                    Err(error) => {
                        return Err(error);
                    },
                }
            },
        };
        Ok(
            ExecPlan {
                command: self.command,
                background: self.background,
                timeout_seconds: self.timeout_seconds,
                env: self.env,
                workdir: self.workdir,
                route,
            },
        )
    }
}

/// The directories that were found, or the error for the first that was not.
pub open spec fn all_found(found: Seq<Result<NormalPath, FrameworkError>>) -> Result<
    Seq<PathView>,
    ErrorView,
>
    decreases found.len(),
{
    if found.len() == 0 {
        Ok(Seq::empty())
    } else {
        match all_found(found.drop_last()) {
            Err(error) => Err(error),
            Ok(before) => match found.last() {
                Ok(path) => Ok(before.push(path@)),
                Err(error) => Err(error@),
            },
        }
    }
}

/// The directories that a command may write to, given where each of them leads or why that is not
/// known.
pub fn allowed_write_roots(found: Vec<Result<NormalPath, FrameworkError>>) -> (r: Result<
    Vec<NormalPath>,
    FrameworkError,
>)
    ensures
        match r {
            Ok(roots) => Ok::<Seq<PathView>, ErrorView>(path_views(roots@)),
            Err(error) => Err(error@),
        } == all_found(found@),
{
    let ghost given = found@;
    let mut roots: Vec<NormalPath> = Vec::new();
    let mut failed: Option<FrameworkError> = None;
    assert(given.take(0) =~= Seq::<Result<NormalPath, FrameworkError>>::empty());
    assert(path_views(roots@) =~= Seq::<PathView>::empty());
    for one in iter: found
        invariant
            iter.seq() == given,
            all_found(given.take(iter.index() as int)) == match failed {
                Some(error) => Err::<Seq<PathView>, ErrorView>(error@),
                None => Ok(path_views(roots@)),
            },
    {
        let ghost before = path_views(roots@);
        proof {
            let k = iter.index() as int;
            assert(given.take(k + 1).drop_last() =~= given.take(k));
            assert(given.take(k + 1).last() == one);
        }
        if failed.is_none() {
            match one {
                Ok(path) => {
                    let ghost added = path@;
                    roots.push(path);
                    assert(path_views(roots@) =~= before.push(added));
                },
                Err(error) => {
                    failed = Some(error);
                },
            }
        }
    }
    assert(given.take(given.len() as int) =~= given);
    match failed {
        Some(error) => Err(error),
        None => Ok(roots),
    }
}

/// Words, as pieces of a command.
pub open spec fn as_words(texts: Seq<Seq<char>>) -> Seq<TokenView> {
    Seq::new(texts.len(), |i: int| TokenView { kind: ShellTokenKind::Word, text: texts[i] })
}

/// Whether words are plain arguments: no flags, no redirections, and not a single dash.
pub open spec fn plain_arguments(texts: Seq<Seq<char>>) -> bool {
    forall|i: int|
        0 <= i < texts.len() ==> !text::starts_with(#[trigger] texts[i], "-"@) && !redirects(
            texts[i],
        )
}

/// Words that are no flags are all arguments.
proof fn lemma_plain_words(name: Seq<char>, texts: Seq<Seq<char>>, from: int)
    requires
        plain_arguments(texts),
        0 <= from <= texts.len(),
    ensures
        plain_words(as_words(seq![name] + texts), from + 1) == texts.skip(from),
    decreases texts.len() - from,
{
    let tokens = as_words(seq![name] + texts);
    if from < texts.len() {
        lemma_plain_words(name, texts, from + 1);
        assert(tokens[from + 1].text == texts[from]);
        assert(texts.skip(from) =~= seq![texts[from]] + texts.skip(from + 1));
    } else {
        assert(texts.skip(from) =~= Seq::<Seq<char>>::empty());
    }
}

/// Among words that are no redirections none is looked at as one.
proof fn lemma_no_redirections(tokens: Seq<TokenView>, n: int)
    requires
        0 <= n <= tokens.len(),
        forall|i: int| 0 <= i < tokens.len() ==> !redirects((#[trigger] tokens[i]).text),
    ensures
        redirection_checks(tokens, n) == Seq::<CheckView>::empty(),
    decreases n,
{
    if n > 0 {
        lemma_no_redirections(tokens, n - 1);
    }
}

/// Words without a single dash among them are all looked at.
proof fn lemma_target_checks(texts: Seq<Seq<char>>)
    requires
        plain_arguments(texts),
    ensures
        target_checks(texts).len() == texts.len(),
        forall|i: int|
            0 <= i < texts.len() ==> #[trigger] target_checks(texts)[i] == CheckView::Target(
                texts[i],
            ),
    decreases texts.len(),
{
    if texts.len() > 0 {
        let before = texts.drop_last();
        assert(plain_arguments(before)) by {
            assert forall|i: int| 0 <= i < before.len() implies !text::starts_with(
                #[trigger] before[i],
                "-"@,
            ) && !redirects(before[i]) by {
                assert(before[i] == texts[i]);
            }
        }
        lemma_target_checks(before);
        assert(!text::starts_with(texts[texts.len() - 1], "-"@));
        assert(texts.last() != "-"@) by {
            reveal_strlit("-");
            if texts.last() == "-"@ {
                assert("-"@.subrange(0, 1) =~= "-"@);
            }
        }
    }
}

/// A name without an equals sign sets no variable.
proof fn lemma_no_assignment(name: Seq<char>)
    requires
        forall|i: int| 0 <= i < name.len() ==> #[trigger] name[i] != '=',
    ensures
        !assigns(name),
{
    reveal_strlit("=");
    if text::contains(name, "="@) {
        let i = choose|i: int| text::occurs_at(name, "="@, i);
        assert(name.subrange(i, i + 1)[0] == '=');
        assert(name[i] == '=');
    }
}

/// What a command with plain arguments is looked at for: of a copy, a move or an installation where
/// it leads to, which is its last word and no other; of a command that makes, empties or removes
/// files each of its words, in their order; of a link its last word; of others nothing.
pub proof fn law_commands_write_where_they_say(name: Seq<char>, texts: Seq<Seq<char>>)
    requires
        plain_arguments(texts),
        !redirects(name),
        !high_risk(name),
        forall|i: int| 0 <= i < name.len() ==> #[trigger] name[i] != '=',
    ensures
        ({
            let checks = segment_checks(as_words(seq![name] + texts));
            let copies = name == "cp"@ || name == "mv"@ || name == "install"@;
            let changes = name == "touch"@ || name == "mkdir"@ || name == "rm"@ || name == "rmdir"@
                || name == "truncate"@ || name == "tee"@;
            let links = name == "ln"@;
            &&& copies && texts.len() > 0 ==> checks == seq![CheckView::Target(texts.last())]
            &&& changes ==> checks.len() == texts.len() && forall|i: int|
                0 <= i < texts.len() ==> #[trigger] checks[i] == CheckView::Target(texts[i])
            &&& links && texts.len() > 1 ==> checks == seq![CheckView::Target(texts.last())]
            &&& !copies && !changes && !links ==> checks == Seq::<CheckView>::empty()
        }),
{
    let words = seq![name] + texts;
    let tokens = as_words(words);
    lemma_no_assignment(name);
    assert(tokens[0].text == name);
    assert(command_from(tokens, 0) == Some(0int));
    assert forall|i: int| 0 <= i < tokens.len() implies !redirects((#[trigger] tokens[i]).text) by {
        if i > 0 {
            assert(tokens[i].text == texts[i - 1]);
        }
    }
    lemma_no_redirections(tokens, tokens.len() as int);
    lemma_plain_words(name, texts, 0);
    assert(texts.skip(0) =~= texts);
    lemma_target_checks(texts);
    if texts.len() > 0 {
        let last = seq![texts.last()];
        assert(plain_arguments(last)) by {
            assert(!text::starts_with(texts[texts.len() - 1], "-"@));
        }
        lemma_target_checks(last);
        assert(target_checks(last) =~= seq![CheckView::Target(texts.last())]);
    }
    reveal_strlit("cp");
    reveal_strlit("mv");
    reveal_strlit("install");
    reveal_strlit("ln");
    reveal_strlit("touch");
    reveal_strlit("mkdir");
    reveal_strlit("rm");
    reveal_strlit("rmdir");
    reveal_strlit("truncate");
    reveal_strlit("tee");
    assert("cp"@[0] == 'c' && "mv"@[0] == 'm' && "mv"@[1] == 'v' && "install"@[0] == 'i');
    assert("ln"@[0] == 'l' && "rm"@[0] == 'r');
    assert(segment_checks(tokens) =~= command_checks(tokens));
    assert(target_checks(Seq::<Seq<char>>::empty()) =~= Seq::<CheckView>::empty());
}

/// Where a copy comes from does not matter: two copies to one place are judged alike.
pub proof fn law_copies_are_judged_by_their_end(
    name: Seq<char>,
    texts: Seq<Seq<char>>,
    others: Seq<Seq<char>>,
)
    requires
        name == "cp"@ || name == "mv"@ || name == "install"@,
        plain_arguments(texts),
        plain_arguments(others),
        texts.len() > 0,
        others.len() > 0,
        texts.last() == others.last(),
    ensures
        segment_checks(as_words(seq![name] + texts)) == segment_checks(
            as_words(seq![name] + others),
        ),
{
    reveal_strlit("cp");
    reveal_strlit("mv");
    reveal_strlit("install");
    reveal_strlit(">");
    reveal_strlit(">>");
    reveal_strlit("1>");
    reveal_strlit("1>>");
    reveal_strlit("2>");
    reveal_strlit("2>>");
    reveal_strlit("chmod");
    reveal_strlit("chown");
    reveal_strlit("mount");
    reveal_strlit("umount");
    assert(name[0] == 'c' || name[0] == 'm' || name[0] == 'i');
    assert(name.len() == 2 || name.len() == 7);
    law_commands_write_where_they_say(name, texts);
    law_commands_write_where_they_say(name, others);
}

/// The words of a command that are looked at for where it writes are those behind its name that do
/// not start with a dash.
pub proof fn law_flags_are_no_targets(tokens: Seq<TokenView>, from: int, word: Seq<char>)
    requires
        0 <= from,
    ensures
        plain_words(tokens, from).contains(word) <==> exists|i: int|
            from <= i < tokens.len() && (#[trigger] tokens[i]).kind == ShellTokenKind::Word
                && tokens[i].text == word && !text::starts_with(word, "-"@),
    decreases tokens.len() - from,
{
    if from < tokens.len() {
        law_flags_are_no_targets(tokens, from + 1, word);
        let rest = plain_words(tokens, from + 1);
        let all = plain_words(tokens, from);
        if tokens[from].kind == ShellTokenKind::Word && !text::starts_with(tokens[from].text, "-"@) {
            assert(all[0] == tokens[from].text);
            if rest.contains(word) {
                let k = choose|k: int| 0 <= k < rest.len() && rest[k] == word;
                assert(all[k + 1] == word);
            }
            if all.contains(word) {
                let k = choose|k: int| 0 <= k < all.len() && all[k] == word;
                if k > 0 {
                    assert(rest[k - 1] == word);
                }
            }
        }
    }
}

/// A command whose every write leads into an open directory, and is no glob, runs in the sandbox.
pub proof fn law_open_commands_run(checks: Seq<ResolvedView>, roots: Seq<PathView>)
    requires
        forall|i: int|
            0 <= i < checks.len() ==> (#[trigger] checks[i]).0 is Target && !globs(
                checks[i].0->Target_0,
            ) && checks[i].1 is Ok && in_any(checks[i].1->Ok_0, roots),
    ensures
        verdict(checks, roots) == Ok::<RouteView, ErrorView>(RouteView::Sandboxed),
    decreases checks.len(),
{
    if checks.len() > 0 {
        let earlier = checks.drop_last();
        assert forall|i: int| 0 <= i < earlier.len() implies (#[trigger] earlier[i]).0 is Target
            && !globs(earlier[i].0->Target_0) && earlier[i].1 is Ok && in_any(
            earlier[i].1->Ok_0,
            roots,
        ) by {
            assert(earlier[i] == checks[i]);
        }
        law_open_commands_run(earlier, roots);
        assert(checks[checks.len() - 1] == checks.last());
    }
}

/// A place is open exactly where it lies in one of the directories: its way starts with the way to
/// the directory.
pub proof fn law_open_places_lie_in_a_directory(path: PathView, roots: Seq<PathView>)
    ensures
        in_any(path, roots) <==> exists|k: int|
            0 <= k < roots.len() && (#[trigger] roots[k]).absolute == path.absolute
                && roots[k].parts.len() <= path.parts.len() && path.parts.take(
                roots[k].parts.len() as int,
            ) == roots[k].parts,
{
    if in_any(path, roots) {
        let k = choose|k: int| 0 <= k < roots.len() && path.within(#[trigger] roots[k]);
        assert(path.parts.take(roots[k].parts.len() as int) =~= roots[k].parts);
    }
    if exists|k: int|
        0 <= k < roots.len() && (#[trigger] roots[k]).absolute == path.absolute
            && roots[k].parts.len() <= path.parts.len() && path.parts.take(
            roots[k].parts.len() as int,
        ) == roots[k].parts {
        let k = choose|k: int|
            0 <= k < roots.len() && (#[trigger] roots[k]).absolute == path.absolute
                && roots[k].parts.len() <= path.parts.len() && path.parts.take(
                roots[k].parts.len() as int,
            ) == roots[k].parts;
        assert(roots[k].parts.is_prefix_of(path.parts)) by {
            assert(path.parts.subrange(0, roots[k].parts.len() as int) =~= path.parts.take(
                roots[k].parts.len() as int,
            ));
        }
        assert(path.within(roots[k]));
    }
}

/// A command that holds what a shell works out first needs approval, and nothing else makes it
/// ambiguous.
pub proof fn law_what_a_shell_works_out_needs_approval(
    command: Seq<char>,
    dynamic_shell: bool,
    network_enabled: bool,
)
    ensures
        ({
            let lowered = text::lower(command);
            let worked_out = text::contains(lowered, "`"@) || text::contains(lowered, "$("@)
                || text::contains(lowered, "<("@) || text::contains(lowered, ">("@)
                || text::contains(lowered, "<<"@) || text::contains(lowered, "eval "@)
                || text::starts_with(lowered, "eval\t"@) || dynamic_shell;
            &&& ambiguous(command, dynamic_shell) <==> worked_out
            &&& worked_out ==> match preflight_of(
                command,
                ambiguous(command, dynamic_shell),
                network_enabled,
            ) {
                PreflightView::Decided(RouteView::NeedsApproval { target, .. }) => target
                    == command,
                _ => false,
            }
        }),
{
}

/// Reading goes on in the same way wherever a text starts.
proof fn lemma_tokens_shift(s: Seq<char>, i: int, quote: Quote, current: Seq<char>)
    requires
        0 <= i <= s.len(),
    ensures
        tokens_from(s, i, quote, current) == tokens_from(s.skip(i), 0, quote, current),
    decreases s.len() - i,
{
    lemma_tokens_shift_by(s, i, 0, quote, current);
}

/// Reading goes on in the same way wherever a text starts.
proof fn lemma_tokens_shift_by(s: Seq<char>, base: int, i: int, quote: Quote, current: Seq<char>)
    requires
        0 <= base <= s.len(),
        0 <= i <= s.len() - base,
    ensures
        tokens_from(s, base + i, quote, current) == tokens_from(s.skip(base), i, quote, current),
    decreases s.len() - base - i,
{
    let t = s.skip(base);
    if i < t.len() {
        assert(t[i] == s[base + i]);
        if i + 1 < t.len() {
            assert(t[i + 1] == s[base + i + 1]);
            lemma_tokens_shift_by(s, base, i + 2, Quote::Double, current.push(t[i + 1]));
            lemma_tokens_shift_by(s, base, i + 2, Quote::Plain, current.push(t[i + 1]));
            lemma_tokens_shift_by(s, base, i + 2, Quote::Plain, Seq::empty());
        }
        lemma_tokens_shift_by(s, base, i + 1, Quote::Plain, current);
        lemma_tokens_shift_by(s, base, i + 1, Quote::Plain, current.push(t[i]));
        lemma_tokens_shift_by(s, base, i + 1, Quote::Single, current);
        lemma_tokens_shift_by(s, base, i + 1, Quote::Single, current.push(t[i]));
        lemma_tokens_shift_by(s, base, i + 1, Quote::Double, current);
        lemma_tokens_shift_by(s, base, i + 1, Quote::Double, current.push(t[i]));
        lemma_tokens_shift_by(s, base, i + 1, Quote::Plain, Seq::empty());
        let n = operator_len(t, i);
        assert(operator_len(s, base + i) == n);
        assert(t.subrange(i, i + n) =~= s.subrange(base + i, base + i + n));
    }
}

/// Whether a text is part of a word as it is: no space, no quote, no backslash and no operator.
pub open spec fn plain_text(s: Seq<char>) -> bool {
    forall|i: int|
        0 <= i < s.len() ==> {
            let c = #[trigger] s[i];
            c != ' ' && c != '\t' && c != '\n' && c != '\'' && c != '"' && c != '\\' && c != '&' && c
                != '|' && c != ';' && c != '>' && c != '<'
        }
}

/// A plain text is read into the word that is open.
proof fn lemma_plain_text(s: Seq<char>, n: int, i: int)
    requires
        0 <= i <= n <= s.len(),
        plain_text(s.take(n)),
    ensures
        tokens_from(s, 0, Quote::Plain, Seq::empty()) == tokens_from(
            s,
            i,
            Quote::Plain,
            s.take(i),
        ),
    decreases i,
{
    if i == 0 {
        assert(s.take(0) =~= Seq::<char>::empty());
    } else {
        lemma_plain_text(s, n, i - 1);
        assert(s.take(n)[i - 1] == s[i - 1]);
        assert(s.take(i - 1).push(s[i - 1]) =~= s.take(i));
    }
}

/// A command is taken apart at its spaces and operators: a word in front of a space is a piece, and
/// so is one in front of an operator, which is a piece too; the rest is taken apart likewise.
pub proof fn law_commands_are_taken_apart_at_spaces(first: Seq<char>, rest: Seq<char>)
    requires
        plain_text(first),
        first.len() > 0,
    ensures
        ({
            let word = TokenView { kind: ShellTokenKind::Word, text: first };
            &&& tokenized(first) == Some(seq![word])
            &&& tokenized(first + seq![' '] + rest) == before(seq![word], tokenized(rest))
            &&& tokenized(first + seq![';'] + rest) == before(
                seq![word, TokenView { kind: ShellTokenKind::Operator, text: seq![';'] }],
                tokenized(rest),
            )
            &&& (rest.len() == 0 || rest[0] != '>') ==> tokenized(first + seq!['>'] + rest)
                == before(
                seq![word, TokenView { kind: ShellTokenKind::Operator, text: seq!['>'] }],
                tokenized(rest),
            )
            &&& tokenized(first + seq!['&', '&'] + rest) == before(
                seq![word, TokenView { kind: ShellTokenKind::Operator, text: seq!['&', '&'] }],
                tokenized(rest),
            )
        }),
{
    let n = first.len() as int;
    assert(first.take(n) =~= first);
    lemma_plain_text(first, n, n);
    let spaced = first + seq![' '] + rest;
    assert(spaced.take(n) =~= first);
    lemma_plain_text(spaced, n, n);
    lemma_tokens_shift(spaced, n + 1, Quote::Plain, Seq::empty());
    assert(spaced.skip(n + 1) =~= rest);
    let ended = first + seq![';'] + rest;
    assert(ended.take(n) =~= first);
    lemma_plain_text(ended, n, n);
    lemma_tokens_shift(ended, n + 1, Quote::Plain, Seq::empty());
    assert(ended.skip(n + 1) =~= rest);
    assert(ended.subrange(n, n + 1) =~= seq![';']);
    let word = TokenView { kind: ShellTokenKind::Word, text: first };
    assert(self::word(first).push(
        TokenView { kind: ShellTokenKind::Operator, text: seq![';'] },
    ) =~= seq![word, TokenView { kind: ShellTokenKind::Operator, text: seq![';'] }]);
    let sent = first + seq!['>'] + rest;
    assert(sent.take(n) =~= first);
    lemma_plain_text(sent, n, n);
    lemma_tokens_shift(sent, n + 1, Quote::Plain, Seq::empty());
    assert(sent.skip(n + 1) =~= rest);
    assert(sent.subrange(n, n + 1) =~= seq!['>']);
    assert(self::word(first).push(
        TokenView { kind: ShellTokenKind::Operator, text: seq!['>'] },
    ) =~= seq![word, TokenView { kind: ShellTokenKind::Operator, text: seq!['>'] }]);
    if rest.len() > 0 {
        assert(sent[n + 1] == rest[0]);
    }
    let both = first + seq!['&', '&'] + rest;
    assert(both.take(n) =~= first);
    lemma_plain_text(both, n, n);
    lemma_tokens_shift(both, n + 2, Quote::Plain, Seq::empty());
    assert(both.skip(n + 2) =~= rest);
    assert(both.subrange(n, n + 2) =~= seq!['&', '&']);
    assert(self::word(first).push(
        TokenView { kind: ShellTokenKind::Operator, text: seq!['&', '&'] },
    ) =~= seq![word, TokenView { kind: ShellTokenKind::Operator, text: seq!['&', '&'] }]);
}

/// What stands between single quotes is read as it is.
proof fn lemma_quoted(s: Seq<char>, n: int, i: int)
    requires
        s.len() >= n + 1,
        s[0] == '\'',
        1 <= i <= n,
        forall|k: int| 1 <= k < n ==> #[trigger] s[k] != '\'',
    ensures
        tokens_from(s, 0, Quote::Plain, Seq::empty()) == tokens_from(
            s,
            i,
            Quote::Single,
            s.subrange(1, i),
        ),
    decreases i,
{
    if i == 1 {
        assert(s.subrange(1, 1) =~= Seq::<char>::empty());
    } else {
        lemma_quoted(s, n, i - 1);
        assert(s.subrange(1, i - 1).push(s[i - 1]) =~= s.subrange(1, i));
    }
}

/// A text in single quotes is one word, whatever stands in it; a quote that is not closed makes a
/// command unreadable.
pub proof fn law_quoted_texts_are_one_word(inner: Seq<char>)
    requires
        inner.len() > 0,
        forall|i: int| 0 <= i < inner.len() ==> #[trigger] inner[i] != '\'',
    ensures
        tokenized(seq!['\''] + inner + seq!['\'']) == Some(
            seq![TokenView { kind: ShellTokenKind::Word, text: inner }],
        ),
        tokenized(seq!['\''] + inner) is None,
{
    reveal_with_fuel(tokens_from, 3);
    let n = inner.len() as int;
    let closed = seq!['\''] + inner + seq!['\''];
    assert forall|k: int| 1 <= k < n + 1 implies #[trigger] closed[k] != '\'' by {
        assert(closed[k] == inner[k - 1]);
    }
    lemma_quoted(closed, n + 1, n + 1);
    assert(closed.subrange(1, n + 1) =~= inner);
    assert(closed[n + 1] == '\'');
    let open = seq!['\''] + inner;
    assert forall|k: int| 1 <= k < n implies #[trigger] open[k] != '\'' by {
        assert(open[k] == inner[k - 1]);
    }
    lemma_quoted(open, n, n);
    assert(open[n] == inner[n - 1]);
}

/// Commands behind a separator come behind those before it.
proof fn lemma_segmented(first: Seq<TokenView>, rest: Seq<TokenView>)
    requires
        segmented(first).1.len() == 0,
    ensures
        segmented(first + rest).0 == segmented(first).0 + segmented(rest).0,
        segmented(first + rest).1 == segmented(rest).1,
    decreases rest.len(),
{
    if rest.len() == 0 {
        assert(first + rest =~= first);
        assert(segmented(first).0 + segmented(rest).0 =~= segmented(first).0);
        assert(segmented(first).1 =~= segmented(rest).1);
    } else {
        lemma_segmented(first, rest.drop_last());
        assert((first + rest).drop_last() =~= first + rest.drop_last());
        let (done, open) = segmented(rest.drop_last());
        assert((segmented(first).0 + done).push(open) =~= segmented(first).0 + done.push(open));
    }
}

/// Pieces without a separator are one command.
proof fn lemma_one_segment(tokens: Seq<TokenView>)
    requires
        forall|i: int| 0 <= i < tokens.len() ==> !separates((#[trigger] tokens[i]).text),
    ensures
        segmented(tokens) == (Seq::<Seq<TokenView>>::empty(), tokens),
    decreases tokens.len(),
{
    if tokens.len() > 0 {
        let before = tokens.drop_last();
        assert forall|i: int| 0 <= i < before.len() implies !separates(
            (#[trigger] before[i]).text,
        ) by {
            assert(before[i] == tokens[i]);
        }
        lemma_one_segment(before);
        assert(!separates(tokens[tokens.len() - 1].text));
        assert(before.push(tokens.last()) =~= tokens);
    } else {
        assert(tokens =~= Seq::<TokenView>::empty());
    }
}

/// Every command between separators is looked at by itself: what stands in front of a separator is
/// one command, and what stands behind it is taken apart likewise.
pub proof fn law_separators_part_commands(
    first: Seq<TokenView>,
    separator: TokenView,
    rest: Seq<TokenView>,
)
    requires
        first.len() > 0,
        forall|i: int|
            0 <= i < first.len() ==> {
                let text = (#[trigger] first[i]).text;
                text != "&&"@ && text != "||"@ && text != ";"@ && text != "|"@
            },
        separator.text == "&&"@ || separator.text == "||"@ || separator.text == ";"@
            || separator.text == "|"@,
    ensures
        segments(first) == seq![first],
        segments(first.push(separator) + rest) == seq![first] + segments(rest),
{
    lemma_one_segment(first);
    let ended = first.push(separator);
    assert(ended.drop_last() =~= first);
    assert(segmented(ended).0 =~= seq![first]);
    lemma_segmented(ended, rest);
    let (done, open) = segmented(rest);
    assert((seq![first] + done).push(open) =~= seq![first] + done.push(open));
    assert(Seq::<Seq<TokenView>>::empty().push(first) =~= seq![first]);
}

/// The name of a command is its first word that sets no variable.
pub proof fn law_commands_are_named_behind_their_variables(tokens: Seq<TokenView>, from: int)
    requires
        0 <= from,
    ensures
        match command_from(tokens, from) {
            Some(at) => {
                &&& from <= at < tokens.len()
                &&& tokens[at].kind == ShellTokenKind::Word
                &&& !assigns(tokens[at].text)
                &&& forall|i: int|
                    from <= i < at ==> (#[trigger] tokens[i]).kind == ShellTokenKind::Operator
                        || assigns(tokens[i].text)
            },
            None => forall|i: int|
                from <= i < tokens.len() ==> (#[trigger] tokens[i]).kind
                    == ShellTokenKind::Operator || assigns(tokens[i].text),
        },
    decreases tokens.len() - from,
{
    if from < tokens.len() && !(tokens[from].kind == ShellTokenKind::Word && !assigns(
        tokens[from].text,
    )) {
        law_commands_are_named_behind_their_variables(tokens, from + 1);
    }
}

/// Output goes to the first word behind a redirection: nothing but operators stands before it.
pub proof fn law_output_goes_to_the_next_word(tokens: Seq<TokenView>, from: int) -> (at: int)
    requires
        0 <= from,
    ensures
        from <= at,
        forall|i: int|
            from <= i < at && i < tokens.len() ==> (#[trigger] tokens[i]).kind
                == ShellTokenKind::Operator,
        at < tokens.len() ==> tokens[at].kind == ShellTokenKind::Word && word_from(tokens, from)
            == Some(tokens[at].text),
        at >= tokens.len() ==> word_from(tokens, from) is None,
    decreases tokens.len() - from,
{
    if from < tokens.len() && tokens[from].kind != ShellTokenKind::Word {
        law_output_goes_to_the_next_word(tokens, from + 1)
    } else {
        from
    }
}

/// What may only be done with approval is refused by its name, whatever follows it.
pub proof fn law_risky_commands_need_approval(name: Seq<char>, texts: Seq<Seq<char>>)
    requires
        name == "chmod"@ || name == "chown"@ || name == "mount"@ || name == "umount"@,
        plain_arguments(texts),
    ensures
        ({
            let checks = segment_checks(as_words(seq![name] + texts));
            &&& checks.len() == 1
            &&& checks[0] matches CheckView::Refuse { capability, target, .. } && capability
                == SandboxCapability::Exec && target == name
        }),
{
    reveal_strlit("chmod");
    reveal_strlit("chown");
    reveal_strlit("mount");
    reveal_strlit("umount");
    reveal_strlit("=");
    reveal_strlit(">");
    reveal_strlit(">>");
    reveal_strlit("1>");
    reveal_strlit("1>>");
    reveal_strlit("2>");
    reveal_strlit("2>>");
    let tokens = as_words(seq![name] + texts);
    assert(name.len() >= 5);
    assert(tokens[0].text == name);
    assert(!text::contains(name, "="@)) by {
        if text::contains(name, "="@) {
            let i = choose|i: int| text::occurs_at(name, "="@, i);
            assert(name.subrange(i, i + 1)[0] == '=');
            assert(name[i] == '=');
        }
    }
    assert(command_from(tokens, 0) == Some(0int));
    assert forall|i: int| 0 <= i < tokens.len() implies !redirects((#[trigger] tokens[i]).text) by {
        if i > 0 {
            assert(tokens[i].text == texts[i - 1]);
        }
    }
    lemma_no_redirections(tokens, tokens.len() as int);
    assert(Seq::<CheckView>::empty() + command_checks(tokens) =~= command_checks(tokens));
}

/// Output is redirected by these signs, and by no others.
pub proof fn law_signs_redirect_output(token: Seq<char>)
    ensures
        redirects(seq!['>']) && redirects(seq!['>', '>']) && redirects(seq!['1', '>'])
            && redirects(seq!['1', '>', '>']) && redirects(seq!['2', '>']) && redirects(
            seq!['2', '>', '>'],
        ),
        redirects(token) ==> token.len() <= 3 && token.last() == '>',
{
    reveal_strlit(">");
    reveal_strlit(">>");
    reveal_strlit("1>");
    reveal_strlit("1>>");
    reveal_strlit("2>");
    reveal_strlit("2>>");
    assert(seq!['>'] =~= ">"@);
    assert(seq!['>', '>'] =~= ">>"@);
    assert(seq!['1', '>'] =~= "1>"@);
    assert(seq!['1', '>', '>'] =~= "1>>"@);
    assert(seq!['2', '>'] =~= "2>"@);
    assert(seq!['2', '>', '>'] =~= "2>>"@);
}

/// A place is open where it lies in one of the directories; one outside needs approval, and so does
/// one that only the shell can work out.
pub proof fn law_places_outside_need_approval(
    target: Seq<char>,
    path: PathView,
    roots: Seq<PathView>,
    resolved: Result<PathView, ErrorView>,
)
    ensures
        text::contains(target, "*"@) || text::contains(target, "?"@) || text::contains(target, "["@)
            ==> match target_verdict(target, resolved, roots) {
            Ok(Some(RouteView::NeedsApproval { capability, target: named, .. })) => capability
                == SandboxCapability::Write && named == target,
            _ => false,
        },
        !globs(target) && in_any(path, roots) ==> target_verdict(target, Ok(path), roots) == Ok::<
            Option<RouteView>,
            ErrorView,
        >(None),
        !globs(target) && !in_any(path, roots) ==> match target_verdict(target, Ok(path), roots) {
            Ok(Some(RouteView::NeedsApproval { capability, target: named, .. })) => capability
                == SandboxCapability::Write && named == path.render(),
            _ => false,
        },
        !globs(target) && resolved is Err ==> target_verdict(target, resolved, roots) is Err,
{
}

/// A command that names one of the tools for the network needs approval where the network is closed.
pub proof fn law_tools_for_the_network_are_known(
    tokens: Seq<TokenView>,
    i: int,
    command: Seq<char>,
)
    requires
        0 <= i < tokens.len(),
        tokens[i].kind == ShellTokenKind::Word,
        tokens[i].text == "curl"@ || tokens[i].text == "wget"@ || tokens[i].text == "ssh"@
            || tokens[i].text == "scp"@ || tokens[i].text == "nc"@ || tokens[i].text == "rsync"@
            || tokens[i].text == "ftp"@ || tokens[i].text == "sftp"@ || tokens[i].text == "ping"@
            || tokens[i].text == "dig"@ || tokens[i].text == "nslookup"@ || tokens[i].text
            == "ncat"@ || tokens[i].text == "netcat"@,
        tokenized(command) == Some(tokens),
    ensures
        match preflight_of(command, false, false) {
            PreflightView::Decided(RouteView::NeedsApproval { capability, target, .. }) => capability
                == SandboxCapability::Network && target == command,
            _ => false,
        },
        preflight_of(command, false, true) is Checks,
{
    assert(uses_network(tokens));
}

/// A command is taken where it says something, and runs in the background only where both the tool
/// and the run allow it; it runs where it is asked to, and in the workspace where it is not.
pub proof fn law_commands_are_taken(
    args: ExecArgsView,
    place: FileEnv,
    allow_background: bool,
    allow_async_tools: bool,
    is_dir: bool,
)
    ensures
        text::is_blank(args.command) ==> admitted(
            args,
            place,
            allow_background,
            allow_async_tools,
            is_dir,
        ) is Err,
        args.background && (!allow_background || !allow_async_tools) ==> admitted(
            args,
            place,
            allow_background,
            allow_async_tools,
            is_dir,
        ) is Err,
        !is_dir ==> admitted(args, place, allow_background, allow_async_tools, is_dir) is Err,
        !text::is_blank(args.command) && (!args.background || (allow_background
            && allow_async_tools)) && is_dir && args.workdir is None ==> admitted(
            args,
            place,
            allow_background,
            allow_async_tools,
            is_dir,
        ) == Ok::<Seq<char>, ErrorView>(place.workspace_root@),
        !text::is_blank(args.command) && (!args.background || (allow_background
            && allow_async_tools)) && is_dir && args.workdir is Some ==> match file_access::tool_path(
            args.workdir->0,
            place.workspace_root@,
            place.env@,
            text::opt_view(place.home),
        ) {
            Ok(path) => admitted(args, place, allow_background, allow_async_tools, is_dir) == Ok::<
                Seq<char>,
                ErrorView,
            >(path.render()),
            Err(error) => admitted(args, place, allow_background, allow_async_tools, is_dir)
                == Err::<Seq<char>, ErrorView>(error),
        },
{
}

/// All places that may be written are found, in their order, or none of them.
pub proof fn law_every_open_place_is_found(found: Seq<Result<NormalPath, FrameworkError>>, i: int)
    requires
        0 <= i < found.len(),
    ensures
        found[i] is Err ==> all_found(found) is Err,
        all_found(found) matches Ok(places) ==> places.len() == found.len() && places[i]
            == found[i]->Ok_0@,
        (forall|k: int| 0 <= k < found.len() ==> #[trigger] found[k] is Ok) ==> all_found(found)
            is Ok,
    decreases found.len(),
{
    reveal_with_fuel(all_found, 2);
    let before = found.drop_last();
    if before.len() > 0 {
        law_every_open_place_is_found(before, if i < before.len() {
            i
        } else {
            0
        });
    }
    assert forall|k: int| 0 <= k < before.len() implies before[k] == #[trigger] found[k] by {}
    if forall|k: int| 0 <= k < found.len() ==> #[trigger] found[k] is Ok {
        assert(found[found.len() - 1] is Ok);
        assert forall|k: int| 0 <= k < before.len() implies #[trigger] before[k] is Ok by {
            assert(found[k] is Ok);
        }
    }
}

/// The places that a command writes to: of what copies and moves the last word, of what makes,
/// changes and removes every word, of a link its last word, and of any other command none.
pub proof fn law_write_targets_are_where_commands_write(
    name: &str,
    words: Vec<String>,
    r: Vec<String>,
)
    requires
        call_ensures(write_targets, (name, words), r),
    ensures
        (name@ == "cp"@ || name@ == "mv"@ || name@ == "install"@) && words@.len() > 0 ==> r@.len()
            == 1 && r@[0]@ == words@.last()@,
        (name@ == "touch"@ || name@ == "mkdir"@ || name@ == "rm"@ || name@ == "rmdir"@ || name@
            == "truncate"@ || name@ == "tee"@) ==> r@.len() == words@.len() && forall|i: int|
            0 <= i < words@.len() ==> (#[trigger] r@[i])@ == words@[i]@,
        name@ == "ln"@ && words@.len() > 1 ==> r@.len() == 1 && r@[0]@ == words@.last()@,
        name@ != "cp"@ && name@ != "mv"@ && name@ != "install"@ && name@ != "touch"@ && name@
            != "mkdir"@ && name@ != "rm"@ && name@ != "rmdir"@ && name@ != "truncate"@ && name@
            != "tee"@ && name@ != "ln"@ ==> r@.len() == 0,
{
    reveal_strlit("cp");
    reveal_strlit("mv");
    reveal_strlit("install");
    reveal_strlit("touch");
    reveal_strlit("mkdir");
    reveal_strlit("rm");
    reveal_strlit("rmdir");
    reveal_strlit("truncate");
    reveal_strlit("tee");
    reveal_strlit("ln");
    assert("cp"@.len() == 2 && "cp"@[0] == 'c');
    assert("mv"@.len() == 2 && "mv"@[0] == 'm');
    assert("rm"@.len() == 2 && "rm"@[0] == 'r');
    assert("ln"@.len() == 2 && "ln"@[0] == 'l');
    assert("tee"@.len() == 3);
    assert("install"@.len() == 7);
    assert("truncate"@.len() == 8);
    assert("touch"@.len() == 5 && "touch"@[0] == 't');
    assert("mkdir"@.len() == 5 && "mkdir"@[0] == 'm');
    assert("rmdir"@.len() == 5 && "rmdir"@[0] == 'r');
    let given = text::views(words@);
    let seen = text::views(r@);
    assert(seen.len() == r@.len());
    if words@.len() > 0 {
        assert(given.last() == words@.last()@);
    }
    if seen.len() > 0 {
        assert(seen[0] == r@[0]@);
    }
    assert forall|i: int| 0 <= i < words@.len() && seen == given implies (#[trigger] r@[i])@
        == words@[i]@ by {
        assert(seen[i] == given[i]);
    }
}

/// What stands in double quotes is one word.
pub proof fn law_doubly_quoted_texts_are_one_word(inner: Seq<char>)
    requires
        inner.len() > 0,
        forall|i: int| 0 <= i < inner.len() ==> #[trigger] inner[i] != '"' && inner[i] != '\\',
    ensures
        tokenized(seq!['"'] + inner + seq!['"']) == Some(
            seq![TokenView { kind: ShellTokenKind::Word, text: inner }],
        ),
        tokenized(seq!['"'] + inner) is None,
{
    reveal_with_fuel(tokens_from, 3);
    let n = inner.len() as int;
    let closed = seq!['"'] + inner + seq!['"'];
    assert forall|k: int| 1 <= k < n + 1 implies #[trigger] closed[k] != '"' && closed[k]
        != '\\' by {
        assert(closed[k] == inner[k - 1]);
    }
    lemma_doubly_quoted(closed, n + 1, n + 1);
    assert(closed.subrange(1, n + 1) =~= inner);
    assert(closed[n + 1] == '"');
    let open = seq!['"'] + inner;
    assert forall|k: int| 1 <= k < n implies #[trigger] open[k] != '"' && open[k] != '\\' by {
        assert(open[k] == inner[k - 1]);
    }
    lemma_doubly_quoted(open, n, n);
    assert(open[n] == inner[n - 1]);
}

/// Reading goes on within double quotes.
proof fn lemma_doubly_quoted(s: Seq<char>, n: int, i: int)
    requires
        s.len() >= n + 1,
        s[0] == '"',
        1 <= i <= n,
        forall|k: int| 1 <= k < n ==> #[trigger] s[k] != '"' && s[k] != '\\',
    ensures
        tokens_from(s, 0, Quote::Plain, Seq::empty()) == tokens_from(
            s,
            i,
            Quote::Double,
            s.subrange(1, i),
        ),
    decreases i,
{
    if i == 1 {
        assert(s.subrange(1, 1) =~= Seq::<char>::empty());
    } else {
        lemma_doubly_quoted(s, n, i - 1);
        assert(s.subrange(1, i - 1).push(s[i - 1]) =~= s.subrange(1, i));
    }
}

/// A character behind a backslash is part of the word, whatever it is, within double quotes too.
pub proof fn law_escaped_characters_are_part_of_the_word(c: char)
    ensures
        tokenized(seq!['\\', c]) == Some(
            seq![TokenView { kind: ShellTokenKind::Word, text: seq![c] }],
        ),
        tokenized(seq!['"', '\\', c, '"']) == Some(
            seq![TokenView { kind: ShellTokenKind::Word, text: seq![c] }],
        ),
{
    reveal_with_fuel(tokens_from, 5);
    assert(Seq::<char>::empty().push(c) =~= seq![c]);
}

/// A command takes as long as it was set to, and two minutes where nothing was set.
pub proof fn law_commands_take_their_time(tool: &ExecTool, r: u64)
    requires
        call_ensures(ExecTool::sandbox_timeout_seconds, (tool,), r),
    ensures
        tool.config.timeout_seconds is Some ==> r == tool.config.timeout_seconds->0,
        tool.config.timeout_seconds is None ==> r == 120,
{
}

/// Background mode is allowed or not as it is set, and nothing else of the tool changes.
pub proof fn law_background_mode_is_set(tool: &mut ExecTool, allow_background: bool)
    requires
        call_ensures(ExecTool::set_allow_background, (tool, allow_background), ()),
    ensures
        final(tool).config.allow_background == allow_background,
        final(tool).config.timeout_seconds == old(tool).config.timeout_seconds,
        final(tool).config.sandbox == old(tool).config.sandbox,
{
}

/// A sign of the shell is an operator of its own, and so is one that stands twice, but for the one
/// that ends a command.
pub proof fn law_signs_are_operators(first: Seq<char>, sign: char, rest: Seq<char>)
    requires
        plain_text(first),
        first.len() > 0,
        sign == '&' || sign == '|' || sign == '>' || sign == '<',
    ensures
        tokenized(first + seq![sign, sign] + rest) == before(
            seq![
                TokenView { kind: ShellTokenKind::Word, text: first },
                TokenView { kind: ShellTokenKind::Operator, text: seq![sign, sign] },
            ],
            tokenized(rest),
        ),
        (rest.len() == 0 || rest[0] != sign) ==> tokenized(first + seq![sign] + rest) == before(
            seq![
                TokenView { kind: ShellTokenKind::Word, text: first },
                TokenView { kind: ShellTokenKind::Operator, text: seq![sign] },
            ],
            tokenized(rest),
        ),
{
    let n = first.len() as int;
    let word = TokenView { kind: ShellTokenKind::Word, text: first };
    let both = first + seq![sign, sign] + rest;
    assert(both.take(n) =~= first);
    lemma_plain_text(both, n, n);
    lemma_tokens_shift(both, n + 2, Quote::Plain, Seq::empty());
    assert(both.skip(n + 2) =~= rest);
    assert(both[n] == sign && both[n + 1] == sign);
    assert(both.subrange(n, n + 2) =~= seq![sign, sign]);
    assert(self::word(first).push(
        TokenView { kind: ShellTokenKind::Operator, text: seq![sign, sign] },
    ) =~= seq![word, TokenView { kind: ShellTokenKind::Operator, text: seq![sign, sign] }]);
    let one = first + seq![sign] + rest;
    assert(one.take(n) =~= first);
    lemma_plain_text(one, n, n);
    lemma_tokens_shift(one, n + 1, Quote::Plain, Seq::empty());
    assert(one.skip(n + 1) =~= rest);
    assert(one[n] == sign);
    assert(one.subrange(n, n + 1) =~= seq![sign]);
    assert(self::word(first).push(
        TokenView { kind: ShellTokenKind::Operator, text: seq![sign] },
    ) =~= seq![word, TokenView { kind: ShellTokenKind::Operator, text: seq![sign] }]);
    if rest.len() > 0 {
        assert(one[n + 1] == rest[0]);
    }
}

} // verus!
