//! Commands split from a chat message, and the chained matching of their
//! first argument against sub-command names and templates.

use vstd::prelude::*;

use crate::pattern::{captures_map, match_segments, parse_template, Captures, Pattern};
use crate::text::str_eq;

verus! {

/// How the command name may be prefixed in a message.
#[derive(Debug, Clone, Copy)]
pub enum PrefixMode {
    /// The name must come after this character.
    Required(char),
    /// The name may come after this character.
    Optional(char),
    /// The name comes without a prefix.
    NoPrefix,
}

impl PrefixMode {
    /// The mode number (0 required, 1 optional, 2 none) and the prefix
    /// character (`'\0'` when there is none) that the command parser takes.
    pub fn code(&self) -> (r: (i32, char))
        ensures
            r == match *self {
                PrefixMode::Required(c) => (0i32, c),
                PrefixMode::Optional(c) => (1i32, c),
                PrefixMode::NoPrefix => (2i32, '\0'),
            },
    {
        match *self {
            PrefixMode::Required(c) => (0, c),
            PrefixMode::Optional(c) => (1, c),
            PrefixMode::NoPrefix => (2, '\0'),
        }
    }
}

/// What a parsed command holds, as characters.
pub struct CommandView {
    pub name: Seq<char>,
    pub args: Seq<Seq<char>>,
    pub args_raw: Seq<char>,
    pub has_args: bool,
}

/// A command parsed from a message: its name, its arguments, the raw text
/// after the name, and whether the parser found arguments.
#[derive(Debug)]
pub struct Command {
    name: String,
    args: Vec<String>,
    args_raw: String,
    has_args: bool,
}

/// The characters of each string of a list.
pub open spec fn texts(v: Seq<String>) -> Seq<Seq<char>> {
    v.map_values(|x: String| x@)
}

/// The first argument of the command is `expected`.
pub open spec fn first_arg_is(c: CommandView, expected: Seq<char>) -> bool {
    c.args.len() > 0 && c.args[0] == expected
}

/// The first argument of the command matches the template `pattern`.
pub open spec fn first_arg_matches(c: CommandView, pattern: Seq<char>) -> bool {
    c.args.len() > 0 && match_segments(parse_template(pattern), c.args[0]) is Some
}

impl View for Command {
    type V = CommandView;

    closed spec fn view(&self) -> CommandView {
        CommandView {
            name: self.name@,
            args: texts(self.args@),
            args_raw: self.args_raw@,
            has_args: self.has_args,
        }
    }
}

impl Command {
    /// A command from what the parser returned for it.
    pub fn from_parts(name: String, args: Vec<String>, args_raw: String, has_args: bool) -> (c:
        Self)
        ensures
            c@ == (CommandView {
                name: name@,
                args: texts(args@),
                args_raw: args_raw@,
                has_args,
            }),
    {
        Command { name, args, args_raw, has_args }
    }

    /// The command name.
    pub fn name(&self) -> (r: &str)
        ensures
            r@ == self@.name,
    {
        self.name.as_str()
    }

    /// The arguments.
    pub fn args(&self) -> (r: &[String])
        ensures
            texts(r@) == self@.args,
    {
        self.args.as_slice()
    }

    /// The argument at `index`, if there is one.
    pub fn arg_at(&self, index: usize) -> (r: Option<&str>)
        ensures
            match r {
                Some(a) => index < self@.args.len() && a@ == self@.args[index as int],
                None => index >= self@.args.len(),
            },
    {
        if index < self.args.len() {
            Some(self.args[index].as_str())
        } else {
            None
        }
    }

    /// The arguments from index `start` on.
    pub fn args_from(&self, start: usize) -> (r: &[String])
        requires
            start <= self@.args.len(),
        ensures
            texts(r@) == self@.args.skip(start as int),
    {
        let r = &self.args.as_slice()[start..self.args.len()];
        assert(texts(r@) =~= self@.args.skip(start as int));
        r
    }

    /// The raw text after the command name.
    pub fn args_raw(&self) -> (r: String)
        ensures
            r@ == self@.args_raw,
    {
        self.args_raw.clone()
    }

    /// Whether the parser found arguments.
    pub fn has_args(&self) -> (r: bool)
        ensures
            r == self@.has_args,
    {
        self.has_args
    }

    /// The number of arguments.
    pub fn args_count(&self) -> (r: usize)
        ensures
            r == self@.args.len(),
    {
        self.args.len()
    }

    /// Whether the first argument is `expected`.
    fn first_is(&self, expected: &str) -> (r: bool)
        ensures
            r == first_arg_is(self@, expected@),
    {
        match self.arg_at(0) {
            Some(a) => str_eq(a, expected),
            None => false,
        }
    }

    /// Runs `f` when the command has no arguments. The matcher returned is
    /// matched exactly then, so that later `on` calls do nothing.
    pub fn handle<'a, F: FnOnce()>(&'a self, f: F) -> (m: CommandMatcher<'a>)
        requires
            !self@.has_args ==> f.requires(()),
        ensures
            m.command() == self@,
            m.is_matched() == !self@.has_args,
            !self@.has_args ==> f.ensures((), ()),
    {
        let matched = !self.has_args();
        if matched {
            f();
        }
        CommandMatcher { cmd: self, matched }
    }

    /// Starts a chain: runs `f` on the arguments after the first when the
    /// first argument is `expected`.
    pub fn on<'a, F: FnOnce(&[String])>(&'a self, expected: &str, f: F) -> (m: CommandMatcher<'a>)
        requires
            first_arg_is(self@, expected@) ==> forall|a: &[String]|
                texts(a@) == self@.args.skip(1) ==> #[trigger] f.requires((a,)),
        ensures
            m.command() == self@,
            m.is_matched() == first_arg_is(self@, expected@),
            m.is_matched() ==> exists|a: &[String]|
                texts(a@) == self@.args.skip(1) && #[trigger] f.ensures((a,), ()),
    {
        let matched = self.first_is(expected);
        if matched {
            let rest = self.args_from(1);
            f(rest);
        }
        CommandMatcher { cmd: self, matched }
    }

    /// Starts a chain: when the first argument matches the template
    /// `pattern`, runs `f` on its captures and the arguments after it.
    pub fn on_pattern<'a, F: FnOnce(Captures, &[String])>(&'a self, pattern: &str, f: F) -> (m:
        CommandMatcher<'a>)
        requires
            first_arg_matches(self@, pattern@) ==> forall|c: Captures, a: &[String]|
                c@ == captures_map(match_segments(parse_template(pattern@), self@.args[0])->0)
                    && texts(a@) == self@.args.skip(1) ==> #[trigger] f.requires((c, a)),
        ensures
            m.command() == self@,
            m.is_matched() == first_arg_matches(self@, pattern@),
            m.is_matched() ==> exists|c: Captures, a: &[String]|
                c@ == captures_map(match_segments(parse_template(pattern@), self@.args[0])->0)
                    && texts(a@) == self@.args.skip(1) && #[trigger] f.ensures((c, a), ()),
    {
        let mut matched = false;
        if let Some(first_arg) = self.arg_at(0) {
            let pat = Pattern::new(pattern);
            if let Some(captures) = pat.match_str(first_arg) {
                let rest = self.args_from(1);
                f(captures, rest);
                matched = true;
            }
        }
        CommandMatcher { cmd: self, matched }
    }
}

/// A chain of sub-command matches on one command: once one has matched,
/// the later ones do nothing.
pub struct CommandMatcher<'a> {
    cmd: &'a Command,
    matched: bool,
}

impl<'a> CommandMatcher<'a> {
    /// The command being matched.
    pub closed spec fn command(&self) -> CommandView {
        self.cmd@
    }

    /// Whether a handler of the chain has run.
    pub closed spec fn is_matched(&self) -> bool {
        self.matched
    }

    /// Runs `f` on the arguments after the first when no handler has run yet
    /// and the first argument is `expected`.
    pub fn on<F: FnOnce(&[String])>(self, expected: &str, f: F) -> (m: Self)
        requires
            !self.is_matched() && first_arg_is(self.command(), expected@) ==> forall|a: &[String]|
                texts(a@) == self.command().args.skip(1) ==> #[trigger] f.requires((a,)),
        ensures
            m.command() == self.command(),
            m.is_matched() == (self.is_matched() || first_arg_is(self.command(), expected@)),
            !self.is_matched() && first_arg_is(self.command(), expected@) ==> exists|a: &[String]|
                texts(a@) == self.command().args.skip(1) && #[trigger] f.ensures((a,), ()),
    {
        let mut m = self;
        if !m.matched {
            if m.cmd.first_is(expected) {
                let rest = m.cmd.args_from(1);
                f(rest);
                m.matched = true;
            }
        }
        m
    }

    /// Runs `f` on the captures and the arguments after the first when no
    /// handler has run yet and the first argument matches the template
    /// `pattern`.
    pub fn on_pattern<F: FnOnce(Captures, &[String])>(self, pattern: &str, f: F) -> (m: Self)
        requires
            !self.is_matched() && first_arg_matches(self.command(), pattern@) ==> forall|
                c: Captures,
                a: &[String],
            |
                c@ == captures_map(
                    match_segments(parse_template(pattern@), self.command().args[0])->0,
                ) && texts(a@) == self.command().args.skip(1) ==> #[trigger] f.requires((c, a)),
        ensures
            m.command() == self.command(),
            m.is_matched() == (self.is_matched() || first_arg_matches(self.command(), pattern@)),
            !self.is_matched() && first_arg_matches(self.command(), pattern@) ==> exists|
                c: Captures,
                a: &[String],
            |
                c@ == captures_map(
                    match_segments(parse_template(pattern@), self.command().args[0])->0,
                ) && texts(a@) == self.command().args.skip(1) && #[trigger] f.ensures(
                    (c, a),
                    (),
                ),
    {
        let mut m = self;
        if !m.matched {
            if let Some(first_arg) = m.cmd.arg_at(0) {
                let pat = Pattern::new(pattern);
                if let Some(captures) = pat.match_str(first_arg) {
                    let rest = m.cmd.args_from(1);
                    f(captures, rest);
                    m.matched = true;
                }
            }
        }
        m
    }

    /// Runs `f` when no handler of the chain has run.
    pub fn otherwise<F: FnOnce()>(&mut self, f: F)
        requires
            !old(self).is_matched() ==> f.requires(()),
        ensures
            *final(self) == *old(self),
            !old(self).is_matched() ==> f.ensures((), ()),
    {
        if !self.matched {
            f();
        }
    }
}

} // verus!

verus! {

/// One step of a chain of matches on a command: `handle`, `on(expected, ..)`
/// or `on_pattern(pattern, ..)`.
pub enum ChainStep {
    NoArgs,
    Exact(Seq<char>),
    Template(Seq<char>),
}

/// Whether a step's own case holds for the command.
pub open spec fn step_matches(c: CommandView, step: ChainStep) -> bool {
    match step {
        ChainStep::NoArgs => !c.has_args,
        ChainStep::Exact(e) => first_arg_is(c, e),
        ChainStep::Template(p) => first_arg_matches(c, p),
    }
}

/// Whether the chain is matched after the steps `steps`, one after another:
/// a step leaves it matched when it was, or when its own case holds (what
/// `handle`, `on` and `on_pattern` each ensure of `is_matched`).
pub open spec fn chain_matched(c: CommandView, steps: Seq<ChainStep>) -> bool
    decreases steps.len(),
{
    if steps.len() == 0 {
        false
    } else {
        chain_matched(c, steps.drop_last()) || step_matches(c, steps.last())
    }
}

/// Whether the handler of step `i` runs: the chain was not matched before it
/// and its own case holds (what `on` and `on_pattern` ensure of their handler).
pub open spec fn step_runs(c: CommandView, steps: Seq<ChainStep>, i: int) -> bool {
    !chain_matched(c, steps.take(i)) && step_matches(c, steps[i])
}

proof fn lemma_chain_matched_exists(c: CommandView, steps: Seq<ChainStep>)
    ensures
        chain_matched(c, steps) <==> exists|j: int| 0 <= j < steps.len() && step_matches(c, #[trigger] steps[j]),
    decreases steps.len(),
{
    if steps.len() > 0 {
        let init = steps.drop_last();
        lemma_chain_matched_exists(c, init);
        if chain_matched(c, init) {
            let j = choose|j: int| 0 <= j < init.len() && step_matches(c, #[trigger] init[j]);
            assert(steps[j] == init[j]);
        }
        if exists|j: int| 0 <= j < steps.len() && step_matches(c, #[trigger] steps[j]) {
            let j = choose|j: int| 0 <= j < steps.len() && step_matches(c, #[trigger] steps[j]);
            if j < steps.len() - 1 {
                assert(init[j] == steps[j]);
            }
        }
    }
}

/// In a chain of `handle` / `on` / `on_pattern` steps, the handler of a step
/// runs exactly when its case holds and no earlier step's case does: only
/// the first matching step's handler runs, so at most one handler runs, and
/// the chain ends matched exactly when one ran.
pub proof fn law_chain_first_match_runs(c: CommandView, steps: Seq<ChainStep>)
    ensures
        forall|i: int|
            0 <= i < steps.len() ==> (#[trigger] step_runs(c, steps, i) <==> (step_matches(c, steps[i])
                && forall|j: int| 0 <= j < i ==> !step_matches(c, #[trigger] steps[j]))),
        forall|i: int, k: int|
            0 <= i < steps.len() && 0 <= k < steps.len() && #[trigger] step_runs(c, steps, i)
                && #[trigger] step_runs(c, steps, k) ==> i == k,
        chain_matched(c, steps) <==> exists|i: int| 0 <= i < steps.len() && #[trigger] step_runs(c, steps, i),
{
    assert forall|i: int| 0 <= i < steps.len() implies (#[trigger] step_runs(c, steps, i) <==> (
    step_matches(c, steps[i]) && forall|j: int| 0 <= j < i ==> !step_matches(c, #[trigger] steps[j])))
        by {
        lemma_chain_matched_exists(c, steps.take(i));
        if chain_matched(c, steps.take(i)) {
            let j = choose|j: int| 0 <= j < steps.take(i).len() && step_matches(c, #[trigger] steps.take(i)[j]);
            assert(steps.take(i)[j] == steps[j]);
        }
        assert forall|j: int| 0 <= j < i && step_matches(c, #[trigger] steps[j]) implies chain_matched(c, steps.take(i)) by {
            assert(steps.take(i)[j] == steps[j]);
        }
    }
    assert forall|i: int, k: int|
        0 <= i < steps.len() && 0 <= k < steps.len() && #[trigger] step_runs(c, steps, i)
            && #[trigger] step_runs(c, steps, k) implies i == k by {
        if i < k {
            assert(steps.take(k)[i] == steps[i]);
            lemma_chain_matched_exists(c, steps.take(k));
        } else if k < i {
            assert(steps.take(i)[k] == steps[k]);
            lemma_chain_matched_exists(c, steps.take(i));
        }
    }
    lemma_chain_matched_exists(c, steps);
    if chain_matched(c, steps) {
        let j = choose|j: int| 0 <= j < steps.len() && step_matches(c, #[trigger] steps[j]);
        let first = choose_first(c, steps, j);
        assert(step_runs(c, steps, first)) by {
            lemma_chain_matched_exists(c, steps.take(first));
            if chain_matched(c, steps.take(first)) {
                let m = choose|m: int| 0 <= m < steps.take(first).len() && step_matches(c, #[trigger] steps.take(first)[m]);
                assert(steps.take(first)[m] == steps[m]);
            }
        }
    }
    if exists|i: int| 0 <= i < steps.len() && #[trigger] step_runs(c, steps, i) {
        let i = choose|i: int| 0 <= i < steps.len() && #[trigger] step_runs(c, steps, i);
        assert(step_matches(c, steps[i]));
    }
}

/// The first step, at or before `j`, whose case holds (given that step `j`'s does).
proof fn choose_first(c: CommandView, steps: Seq<ChainStep>, j: int) -> (first: int)
    requires
        0 <= j < steps.len(),
        step_matches(c, steps[j]),
    ensures
        0 <= first <= j,
        step_matches(c, steps[first]),
        forall|m: int| 0 <= m < first ==> !step_matches(c, #[trigger] steps[m]),
    decreases j,
{
    if exists|m: int| 0 <= m < j && step_matches(c, #[trigger] steps[m]) {
        let m = choose|m: int| 0 <= m < j && step_matches(c, #[trigger] steps[m]);
        choose_first(c, steps, m)
    } else {
        j
    }
}

} // verus!
