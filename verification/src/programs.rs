//! From an argument list to the children that are to be run.
//!
//! In keyed mode the arguments are values, one separator, and a command
//! template; each value gives one child, whose command is the template with
//! the value substituted. In single mode there is one child and no
//! substitution. Each child learns how wide its terminal is: the width of the
//! invoking terminal less the prefix that is put before its lines.

use vstd::prelude::*;
use vstd::string::StringExecFns;
use crate::interpolator::{accepted, interpolated, Interpolator};
use crate::terminal::{byte_len, count_bytes, resolve_dimensions, resolved, terminal_size, Dimensions};

verus! {

broadcast use vstd::string::group_string_axioms;

/// Why no children could be planned.
#[derive(Debug, Clone, Copy, PartialEq, Eq, Structural)]
pub enum BuildError {
    /// The arguments do not hold exactly one separator.
    MissingSeparator,
    /// There is no command to run.
    EmptyCommand,
    /// The key cannot be turned into a pattern.
    KeyRejected,
}

impl BuildError {
    /// What the user is told.
    pub open spec fn message_text(self) -> Seq<char> {
        match self {
            BuildError::MissingSeparator => "Expected '%%' separator between keys and command"@,
            BuildError::EmptyCommand => "Expected non empty command"@,
            BuildError::KeyRejected => "Key cannot be used as a pattern"@,
        }
    }

    /// The message for the error stream.
    pub fn message(&self) -> (text: String)
        ensures
            text@ == self.message_text(),
    {
        match self {
            BuildError::MissingSeparator => String::from_str(
                "Expected '%%' separator between keys and command",
            ),
            BuildError::EmptyCommand => String::from_str("Expected non empty command"),
            BuildError::KeyRejected => String::from_str("Key cannot be used as a pattern"),
        }
    }
}

/// The contents of a list of strings.
pub open spec fn texts(items: Seq<String>) -> Seq<Seq<char>> {
    items.map_values(|s: String| s@)
}

/// The token that parts the values from the command.
pub open spec fn separator() -> Seq<char> {
    "%%"@
}

/// Whether position `i` of `args` holds the separator and no other position does.
pub open spec fn sole_separator(args: Seq<Seq<char>>, i: int) -> bool {
    &&& 0 <= i < args.len()
    &&& forall|j: int| 0 <= j < args.len() ==> ((#[trigger] args[j]) == separator() <==> j == i)
}

/// No two positions are the sole separator of one argument list.
pub proof fn lemma_sole_separator_unique(args: Seq<Seq<char>>, i: int, k: int)
    requires
        sole_separator(args, i),
        sole_separator(args, k),
    ensures
        i == k,
{
    assert(args[k] == separator());
}

/// Finds the separator of keyed mode. It is found when the arguments hold
/// exactly one, and something follows it.
pub fn find_separator(args: &Vec<String>) -> (found: Result<usize, BuildError>)
    ensures
        found matches Ok(i) ==> sole_separator(texts(args@), i as int) && i + 1 < args.len(),
        found == Err::<usize, BuildError>(BuildError::MissingSeparator) <==> forall|i: int|
            !sole_separator(texts(args@), i),
        found == Err::<usize, BuildError>(BuildError::EmptyCommand) <==> sole_separator(
            texts(args@),
            args.len() - 1,
        ),
        found != Err::<usize, BuildError>(BuildError::KeyRejected),
{
    let token = String::from_str("%%");
    let ghost all = texts(args@);
    let mut seen: Option<usize> = None;
    let mut i: usize = 0;
    while i < args.len()
        invariant
            i <= args.len(),
            all == texts(args@),
            token@ == separator(),
            match seen {
                None => forall|j: int| 0 <= j < i ==> (#[trigger] all[j]) != separator(),
                Some(k) => k < i && forall|j: int|
                    0 <= j < i ==> ((#[trigger] all[j]) == separator() <==> j == k),
            },
        decreases args.len() - i,
    {
        if args[i] == token {
            if let Some(k) = seen {
                proof {
                    assert forall|c: int| !sole_separator(all, c) by {
                        assert(all[k as int] == separator());
                        assert(all[i as int] == separator());
                    }
                }
                return Err(BuildError::MissingSeparator);
            }
            seen = Some(i);
        }
        i += 1;
    }
    match seen {
        None => {
            proof {
                assert forall|c: int| !sole_separator(all, c) by {
                    if 0 <= c < all.len() {
                        assert(all[c] != separator());
                    }
                }
            }
            Err(BuildError::MissingSeparator)
        },
        Some(k) => {
            proof {
                assert(sole_separator(all, k as int));
                if sole_separator(all, all.len() - 1) {
                    lemma_sole_separator_unique(all, k as int, all.len() - 1);
                }
            }
            if k + 1 < args.len() {
                Ok(k)
            } else {
                Err(BuildError::EmptyCommand)
            }
        },
    }
}

/// The words of a command with one space between each two.
pub open spec fn joined(words: Seq<Seq<char>>) -> Seq<char>
    decreases words.len(),
{
    if words.len() == 0 {
        Seq::empty()
    } else if words.len() == 1 {
        words[0]
    } else {
        joined(words.drop_last()) + " "@ + words.last()
    }
}

/// Writes a command on one line, its words parted by single spaces. Nothing
/// is quoted.
pub fn join_words(words: &Vec<String>) -> (line: String)
    ensures
        line@ == joined(texts(words@)),
{
    let mut line = String::new();
    let mut i: usize = 0;
    while i < words.len()
        invariant
            i <= words.len(),
            line@ == joined(texts(words@).take(i as int)),
        decreases words.len() - i,
    {
        proof {
            let before = texts(words@).take(i as int);
            let after = texts(words@).take(i + 1);
            assert(after.drop_last() == before);
            assert(after.last() == words@[i as int]@);
            if i == 0 {
                assert(before.len() == 0);
            }
        }
        if i > 0 {
            line.append(" ");
        }
        line.append(words[i].as_str());
        i += 1;
    }
    proof {
        assert(texts(words@).take(words.len() as int) == texts(words@));
    }
    line
}

/// One child that is to be run.
#[derive(Debug, Clone, PartialEq, Eq)]
pub struct Invocation {
    /// What is put before each line of the child's output.
    pub prefix: String,
    /// The size of the child's terminal.
    pub dimensions: Dimensions,
    /// The program and its arguments.
    pub command: Vec<String>,
}

/// What an `Invocation` holds.
pub struct InvocationModel {
    pub prefix: Seq<char>,
    pub dimensions: Dimensions,
    pub command: Seq<Seq<char>>,
}

impl View for Invocation {
    type V = InvocationModel;

    open spec fn view(&self) -> InvocationModel {
        InvocationModel {
            prefix: self.prefix@,
            dimensions: self.dimensions,
            command: texts(self.command@),
        }
    }
}

impl Invocation {
    /// The child with this prefix and command on a terminal of `dimensions`.
    /// Its own terminal has the same rows and is narrower by the bytes of
    /// the prefix, with at least one column.
    pub fn new(prefix: String, command: Vec<String>, dimensions: Dimensions) -> (child: Invocation)
        ensures
            child@ == invocation_for(prefix@, texts(command@), dimensions),
    {
        let narrowed = dimensions.narrow(count_bytes(prefix.as_str()));
        Invocation { prefix, dimensions: narrowed, command }
    }
}

/// What is to be done for an argument list.
#[derive(Debug, Clone, PartialEq, Eq)]
pub enum Plan {
    /// Only show the commands: one line for each child, nothing is run.
    DryRun(Vec<String>),
    /// Run these children.
    Spawn(Vec<Invocation>),
}

/// What a `Plan` holds.
pub enum PlanModel {
    DryRun(Seq<Seq<char>>),
    Spawn(Seq<InvocationModel>),
}

impl View for Plan {
    type V = PlanModel;

    open spec fn view(&self) -> PlanModel {
        match self {
            Plan::DryRun(lines) => PlanModel::DryRun(texts(lines@)),
            Plan::Spawn(children) => PlanModel::Spawn(children@.map_values(|c: Invocation| c@)),
        }
    }
}

/// The child with this prefix and command on a terminal of `dimensions`:
/// its own terminal is narrower by the bytes of the prefix.
pub open spec fn invocation_for(
    prefix: Seq<char>,
    command: Seq<Seq<char>>,
    dimensions: Dimensions,
) -> InvocationModel {
    InvocationModel { prefix, dimensions: dimensions.narrowed_by(byte_len(prefix)), command }
}

/// The prefix of a value's child in keyed mode.
pub open spec fn keyed_prefix(value: Seq<char>) -> Seq<char> {
    value + ": "@
}

/// The prefix of the child in single mode: an empty one stays empty.
pub open spec fn single_prefix(prefix: Seq<char>) -> Seq<char> {
    if prefix.len() > 0 {
        prefix + ": "@
    } else {
        prefix
    }
}

/// Makes the prefix of a value's child in keyed mode.
pub fn prefix_of_value(value: &String) -> (prefix: String)
    ensures
        prefix@ == keyed_prefix(value@),
{
    let mut prefix = value.clone();
    prefix.append(": ");
    prefix
}

/// Makes the prefix of the child in single mode.
pub fn prefix_of_single(prefix: &String) -> (shown: String)
    ensures
        shown@ == single_prefix(prefix@),
{
    let mut shown = prefix.clone();
    if !prefix.as_str().is_empty() {
        shown.append(": ");
    }
    shown
}

/// The command template with `value` substituted in each of its words.
pub open spec fn substituted(key: Seq<char>, template: Seq<Seq<char>>, value: Seq<char>) -> Seq<
    Seq<char>,
> {
    template.map_values(|word: Seq<char>| interpolated(key, word, value))
}

/// The plan of keyed mode: one entry for each value, in the order of the
/// values.
pub open spec fn keyed_plan(
    key: Seq<char>,
    values: Seq<Seq<char>>,
    template: Seq<Seq<char>>,
    dimensions: Dimensions,
    dryrun: bool,
) -> PlanModel {
    if dryrun {
        PlanModel::DryRun(values.map_values(|v: Seq<char>| joined(substituted(key, template, v))))
    } else {
        PlanModel::Spawn(
            values.map_values(
                |v: Seq<char>|
                    invocation_for(keyed_prefix(v), substituted(key, template, v), dimensions),
            ),
        )
    }
}

/// The plan of single mode: one entry.
pub open spec fn single_plan(
    prefix: Seq<char>,
    command: Seq<Seq<char>>,
    dimensions: Dimensions,
    dryrun: bool,
) -> PlanModel {
    if dryrun {
        PlanModel::DryRun(seq![joined(command)])
    } else {
        PlanModel::Spawn(seq![invocation_for(single_prefix(prefix), command, dimensions)])
    }
}

/// What a planning function returned, with the plan taken by its contents.
pub open spec fn outcome(made: Result<Plan, BuildError>) -> Result<PlanModel, BuildError> {
    match made {
        Ok(plan) => Ok(plan@),
        Err(e) => Err(e),
    }
}

/// What keyed mode makes of its arguments. The arguments must hold exactly
/// one separator, with a command behind it, and the key must be accepted;
/// the values are what stands before the separator.
pub open spec fn keyed_outcome(
    key: Seq<char>,
    dryrun: bool,
    args: Seq<Seq<char>>,
    dimensions: Dimensions,
) -> Result<PlanModel, BuildError> {
    if !exists|i: int| sole_separator(args, i) {
        Err(BuildError::MissingSeparator)
    } else {
        let at = choose|i: int| sole_separator(args, i);
        if at + 1 == args.len() {
            Err(BuildError::EmptyCommand)
        } else if !accepted(key) {
            Err(BuildError::KeyRejected)
        } else {
            Ok(
                keyed_plan(
                    key,
                    args.subrange(0, at),
                    args.subrange(at + 1, args.len() as int),
                    dimensions,
                    dryrun,
                ),
            )
        }
    }
}

/// What single mode makes of its arguments.
pub open spec fn single_outcome(
    prefix: Seq<char>,
    dryrun: bool,
    command: Seq<Seq<char>>,
    dimensions: Dimensions,
) -> Result<PlanModel, BuildError> {
    if command.len() == 0 {
        Err(BuildError::EmptyCommand)
    } else {
        Ok(single_plan(prefix, command, dimensions, dryrun))
    }
}

/// Substitutes `value` into the words of `args` from position `from` on.
fn substitute_command(
    interpolator: &Interpolator,
    args: &Vec<String>,
    from: usize,
    value: &String,
) -> (out: Vec<String>)
    requires
        from <= args.len(),
    ensures
        texts(out@) == substituted(
            interpolator.key(),
            texts(args@).subrange(from as int, args.len() as int),
            value@,
        ),
{
    let mut out: Vec<String> = Vec::new();
    let mut j: usize = from;
    while j < args.len()
        invariant
            from <= j <= args.len(),
            out.len() == j - from,
            forall|k: int|
                0 <= k < out.len() ==> (#[trigger] out@[k])@ == interpolated(
                    interpolator.key(),
                    args@[from + k]@,
                    value@,
                ),
        decreases args.len() - j,
    {
        out.push(interpolator.interpolate(&args[j], value));
        j += 1;
    }
    proof {
        assert(texts(out@) =~= substituted(
            interpolator.key(),
            texts(args@).subrange(from as int, args.len() as int),
            value@,
        ));
    }
    out
}

/// Copies a list of words.
fn copy_words(words: &Vec<String>) -> (out: Vec<String>)
    ensures
        texts(out@) == texts(words@),
{
    let mut out: Vec<String> = Vec::new();
    let mut i: usize = 0;
    while i < words.len()
        invariant
            i <= words.len(),
            out.len() == i,
            forall|k: int| 0 <= k < i ==> (#[trigger] out@[k])@ == words@[k]@,
        decreases words.len() - i,
    {
        out.push(words[i].clone());
        i += 1;
    }
    proof {
        assert(texts(out@) =~= texts(words@));
    }
    out
}

/// Plans keyed mode: one child for each value before the separator, running
/// the command behind it with the value substituted for the placeholder of
/// `name`. In a dry run the plan holds the commands as lines instead.
pub fn plan_keyed(
    name: &String,
    dryrun: bool,
    values_and_command: &Vec<String>,
    dimensions: Dimensions,
) -> (made: Result<Plan, BuildError>)
    ensures
        outcome(made) == keyed_outcome(name@, dryrun, texts(values_and_command@), dimensions),
{
    let ghost all = texts(values_and_command@);
    let at = match find_separator(values_and_command) {
        Ok(at) => at,
        Err(e) => {
            proof {
                if e == BuildError::EmptyCommand {
                    lemma_sole_separator_unique(
                        all,
                        choose|i: int| sole_separator(all, i),
                        all.len() - 1,
                    );
                }
            }
            return Err(e);
        },
    };
    proof {
        lemma_sole_separator_unique(all, choose|i: int| sole_separator(all, i), at as int);
    }
    let interpolator = match Interpolator::new(name) {
        Some(interpolator) => interpolator,
        None => {
            return Err(BuildError::KeyRejected);
        },
    };
    let ghost template = all.subrange(at + 1, all.len() as int);
    let mut lines: Vec<String> = Vec::new();
    let mut children: Vec<Invocation> = Vec::new();
    let mut i: usize = 0;
    while i < at
        invariant
            i <= at < values_and_command.len(),
            all == texts(values_and_command@),
            template == all.subrange(at + 1, all.len() as int),
            interpolator.key() == name@,
            dryrun ==> lines.len() == i,
            !dryrun ==> children.len() == i,
            dryrun ==> forall|k: int|
                0 <= k < i ==> (#[trigger] lines@[k])@ == joined(
                    substituted(name@, template, all[k]),
                ),
            !dryrun ==> forall|k: int|
                0 <= k < i ==> (#[trigger] children@[k])@ == invocation_for(
                    keyed_prefix(all[k]),
                    substituted(name@, template, all[k]),
                    dimensions,
                ),
        decreases at - i,
    {
        let value = &values_and_command[i];
        let command = substitute_command(&interpolator, values_and_command, at + 1, value);
        if dryrun {
            lines.push(join_words(&command));
        } else {
            children.push(Invocation::new(prefix_of_value(value), command, dimensions));
        }
        i += 1;
    }
    let plan = if dryrun {
        Plan::DryRun(lines)
    } else {
        Plan::Spawn(children)
    };
    proof {
        let expected = keyed_plan(name@, all.subrange(0, at as int), template, dimensions, dryrun);
        if dryrun {
            assert(texts(lines@) =~= expected->DryRun_0);
        } else {
            assert(children@.map_values(|c: Invocation| c@) =~= expected->Spawn_0);
        }
    }
    Ok(plan)
}

/// Plans single mode: one child that runs `command` as it stands.
pub fn plan_single(
    prefix: &String,
    dryrun: bool,
    command: &Vec<String>,
    dimensions: Dimensions,
) -> (made: Result<Plan, BuildError>)
    ensures
        outcome(made) == single_outcome(prefix@, dryrun, texts(command@), dimensions),
{
    if command.len() == 0 {
        return Err(BuildError::EmptyCommand);
    }
    if dryrun {
        let mut lines: Vec<String> = Vec::new();
        lines.push(join_words(command));
        proof {
            assert(texts(lines@) =~= seq![joined(texts(command@))]);
        }
        Ok(Plan::DryRun(lines))
    } else {
        let mut children: Vec<Invocation> = Vec::new();
        children.push(Invocation::new(prefix_of_single(prefix), copy_words(command), dimensions));
        proof {
            assert(children@.map_values(|c: Invocation| c@) =~= seq![
                invocation_for(single_prefix(prefix@), texts(command@), dimensions),
            ]);
        }
        Ok(Plan::Spawn(children))
    }
}

/// How the tool was invoked.
#[derive(Debug, Clone, PartialEq, Eq)]
pub enum Opt {
    /// Run the command once for each value.
    Key {
        /// The key of the placeholder; the values are used as prefixes.
        name: String,
        /// Only show the commands.
        dryrun: bool,
        /// The line length to assume where the terminal cannot be asked.
        columns: u16,
        /// The values, the separator, and the command.
        values_and_command: Vec<String>,
    },
    /// Run one command without substitution.
    Single {
        /// The prefix to use.
        prefix: String,
        /// Only show the command.
        dryrun: bool,
        /// The line length to assume where the terminal cannot be asked.
        columns: u16,
        /// The command.
        command: Vec<String>,
    },
}

/// What an invocation comes to, given the size of the invoking terminal
/// where it is known.
pub open spec fn planned(opt: Opt, terminal: Option<Dimensions>) -> Result<PlanModel, BuildError> {
    match opt {
        Opt::Key { name, dryrun, columns, values_and_command } => keyed_outcome(
            name@,
            dryrun,
            texts(values_and_command@),
            resolved(terminal, columns),
        ),
        Opt::Single { prefix, dryrun, columns, command } => single_outcome(
            prefix@,
            dryrun,
            texts(command@),
            resolved(terminal, columns),
        ),
    }
}

/// Plans the children of an invocation on a terminal of the given size.
pub fn plan_programs(opt: &Opt, terminal: Option<Dimensions>) -> (made: Result<Plan, BuildError>)
    ensures
        outcome(made) == planned(*opt, terminal),
{
    match opt {
        Opt::Key { name, dryrun, columns, values_and_command } => plan_keyed(
            name,
            *dryrun,
            values_and_command,
            resolve_dimensions(terminal, *columns),
        ),
        Opt::Single { prefix, dryrun, columns, command } => plan_single(
            prefix,
            *dryrun,
            command,
            resolve_dimensions(terminal, *columns),
        ),
    }
}

/// Plans the children of an invocation, asking the terminal on standard
/// output for its size. The plan is the one for some answer of the
/// terminal, or for none.
pub fn make_programs(opt: &Opt) -> (made: Result<Plan, BuildError>)
    ensures
        exists|terminal: Option<Dimensions>| outcome(made) == #[trigger] planned(*opt, terminal),
{
    let terminal = terminal_size();
    let made = plan_programs(opt, terminal);
    proof {
        assert(outcome(made) == planned(*opt, terminal));
    }
    made
}

impl Opt {
    /// The line length that the invocation names for the case that the
    /// terminal cannot be asked.
    pub open spec fn fallback_columns(self) -> u16 {
        match self {
            Opt::Key { columns, .. } => columns,
            Opt::Single { columns, .. } => columns,
        }
    }

    /// Whether the invocation only asks for the commands to be shown.
    pub open spec fn is_dry_run(self) -> bool {
        match self {
            Opt::Key { dryrun, .. } => dryrun,
            Opt::Single { dryrun, .. } => dryrun,
        }
    }
}

/// What a dry run shows does not depend on the terminal: its outcome is the
/// same whatever size the terminal has, and whether it can be asked or not.
pub proof fn lemma_dry_run_ignores_terminal(
    opt: Opt,
    one: Option<Dimensions>,
    other: Option<Dimensions>,
)
    requires
        opt.is_dry_run(),
    ensures
        planned(opt, one) == planned(opt, other),
{
}

/// Values followed by a command, with no separator among them, are refused
/// in keyed mode as lacking the separator, whatever the key.
pub proof fn lemma_without_separator_refused(
    key: Seq<char>,
    dryrun: bool,
    values: Seq<Seq<char>>,
    command: Seq<Seq<char>>,
    dimensions: Dimensions,
)
    requires
        values.len() > 0,
        forall|i: int| 0 <= i < values.len() ==> values[i] != separator(),
        forall|i: int| 0 <= i < command.len() ==> command[i] != separator(),
    ensures
        keyed_outcome(key, dryrun, values + command, dimensions) == Err::<PlanModel, BuildError>(
            BuildError::MissingSeparator,
        ),
{
    let args = values + command;
    assert forall|i: int| !sole_separator(args, i) by {
        if 0 <= i < args.len() {
            if i < values.len() {
                assert(args[i] == values[i]);
            } else {
                assert(args[i] == command[i - values.len()]);
            }
        }
    }
}

/// Every planned child has the rows of the terminal that was planned for,
/// and its columns less the bytes of the child's prefix, but never less than
/// one column.
pub proof fn lemma_columns_narrowed(opt: Opt, terminal: Option<Dimensions>, i: int)
    requires
        planned(opt, terminal) matches Ok(PlanModel::Spawn(children)) && 0 <= i < children.len(),
    ensures
        ({
            let child = planned(opt, terminal)->Ok_0->Spawn_0[i];
            let whole = resolved(terminal, opt.fallback_columns());
            let rest = whole.columns - byte_len(child.prefix);
            &&& child.dimensions.rows == whole.rows
            &&& child.dimensions.columns == if rest > 1 {
                rest
            } else {
                1
            }
        }),
{
}

/// A dry run plans no child. Where the arguments are in order, and in keyed
/// mode the key is accepted, it plans lines: one for each value in keyed
/// mode, one in single mode. Otherwise it plans nothing.
pub proof fn lemma_dry_run_plans_lines(opt: Opt, terminal: Option<Dimensions>)
    requires
        opt.is_dry_run(),
    ensures
        !(planned(opt, terminal) matches Ok(PlanModel::Spawn(_))),
        match opt {
            Opt::Key { name, values_and_command, .. } => {
                let args = texts(values_and_command@);
                &&& planned(opt, terminal) is Ok <==> accepted(name@) && exists|i: int|
                    sole_separator(args, i) && i + 1 < args.len()
                &&& forall|i: int|
                    sole_separator(args, i) && planned(opt, terminal) is Ok ==> planned(
                        opt,
                        terminal,
                    )->Ok_0->DryRun_0.len() == i
            },
            Opt::Single { command, .. } => {
                &&& planned(opt, terminal) is Ok <==> command.len() > 0
                &&& planned(opt, terminal) is Ok ==> planned(opt, terminal)->Ok_0->DryRun_0.len()
                    == 1
            },
        },
{
    match opt {
        Opt::Key { name, values_and_command, .. } => {
            let args = texts(values_and_command@);
            if exists|i: int| sole_separator(args, i) {
                let at = choose|i: int| sole_separator(args, i);
                assert forall|i: int| sole_separator(args, i) implies i == at by {
                    lemma_sole_separator_unique(args, i, at);
                }
            }
        },
        Opt::Single { .. } => {},
    }
}

/// Every planned child has a program to run: its command is not empty.
pub proof fn lemma_planned_commands_not_empty(opt: Opt, terminal: Option<Dimensions>, i: int)
    requires
        planned(opt, terminal) matches Ok(PlanModel::Spawn(children)) && 0 <= i < children.len(),
    ensures
        planned(opt, terminal)->Ok_0->Spawn_0[i].command.len() > 0,
{
    match opt {
        Opt::Key { name, dryrun, columns, values_and_command } => {
            let args = texts(values_and_command@);
            let at = choose|k: int| sole_separator(args, k);
            assert(sole_separator(args, at));
        },
        Opt::Single { .. } => {},
    }
}

/// Values, the separator and a command, none of them the separator but the
/// separator itself, are planned value by value where the key is accepted:
/// a dry run holds one line for each value and no child, and otherwise
/// there is one child for each value, in the order of the values. Where the
/// key is not accepted, that is the outcome.
pub proof fn lemma_one_entry_per_value(
    key: Seq<char>,
    dryrun: bool,
    values: Seq<Seq<char>>,
    command: Seq<Seq<char>>,
    dimensions: Dimensions,
)
    requires
        forall|i: int| 0 <= i < values.len() ==> values[i] != separator(),
        forall|i: int| 0 <= i < command.len() ==> command[i] != separator(),
        command.len() > 0,
    ensures
        keyed_outcome(key, dryrun, values + seq![separator()] + command, dimensions) == if accepted(
            key,
        ) {
            Ok::<PlanModel, BuildError>(keyed_plan(key, values, command, dimensions, dryrun))
        } else {
            Err::<PlanModel, BuildError>(BuildError::KeyRejected)
        },
        dryrun ==> (keyed_plan(key, values, command, dimensions, dryrun) matches PlanModel::DryRun(
            lines,
        ) && lines.len() == values.len()),
        !dryrun ==> (keyed_plan(key, values, command, dimensions, dryrun) matches PlanModel::Spawn(
            children,
        ) && children.len() == values.len()),
{
    let args = values + seq![separator()] + command;
    let at = values.len() as int;
    assert forall|j: int| 0 <= j < args.len() implies ((#[trigger] args[j]) == separator() <==> j
        == at) by {
        if j < at {
            assert(args[j] == values[j]);
        } else if j > at {
            assert(args[j] == command[j - at - 1]);
        }
    }
    assert(sole_separator(args, at));
    lemma_sole_separator_unique(args, choose|i: int| sole_separator(args, i), at);
    assert(args.subrange(0, at) =~= values);
    assert(args.subrange(at + 1, args.len() as int) =~= command);
}

} // verus!
