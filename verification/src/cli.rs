//! The command line: what the arguments ask for.
use vstd::prelude::*;
use vstd::string::*;
use crate::config::{duration_fits, duration_in_range, seconds, CollectorConfig, CollectorView};
use crate::settings::{
    add_setting, apply_add, apply_remove, remove_setting, takes_duration, wants_duration,
    DaemonConfig, FileConfig, Settings,
};
use crate::text::{chars_of, find_char, first_index, lemma_first_index, part, same_text, string_of};
use crate::time::Duration;

verus! {

/// How a snapshot is printed.
#[derive(Debug, Clone, Copy, PartialEq, Eq, Structural)]
pub enum OutputFormat {
    Text,
    Json,
    JsonPretty,
}

/// The options of a run.
#[derive(Debug, Clone, Copy, PartialEq, Eq, Structural)]
pub struct CliArgs {
    pub format: OutputFormat,
    /// Whether the daemon stays in the foreground
    pub foreground: bool,
}

/// What the options ask for.
#[derive(Debug, Clone, Copy, PartialEq, Eq, Structural)]
pub enum Request {
    Run(CliArgs),
    /// Print the help and end
    Help,
    /// Print the version and end
    Version,
}

/// The characters of each text.
pub open spec fn texts(s: Seq<String>) -> Seq<Seq<char>> {
    s.map_values(|t: String| t@)
}

/// The message for an option that is not known.
pub open spec fn unknown_argument(arg: Seq<char>) -> Seq<char> {
    "unknown argument: "@ + arg + " (use -h for help)"@
}

/// The options one after another. The first that asks for help or the version, or
/// is not known, decides.
pub open spec fn options_from(args: CliArgs, raw: Seq<Seq<char>>) -> Result<Request, Seq<char>>
    decreases raw.len(),
{
    if raw.len() == 0 {
        Ok(Request::Run(args))
    } else {
        let rest = raw.drop_first();
        if raw[0] == "--foreground"@ {
            options_from(CliArgs { foreground: true, ..args }, rest)
        } else if raw[0] == "--json"@ {
            options_from(
                CliArgs {
                    format: if args.format == OutputFormat::Text {
                        OutputFormat::Json
                    } else {
                        args.format
                    },
                    ..args
                },
                rest,
            )
        } else if raw[0] == "--pretty"@ {
            options_from(CliArgs { format: OutputFormat::JsonPretty, ..args }, rest)
        } else if raw[0] == "-h"@ || raw[0] == "--help"@ {
            Ok(Request::Help)
        } else if raw[0] == "-V"@ || raw[0] == "--version"@ {
            Ok(Request::Version)
        } else {
            Err(unknown_argument(raw[0]))
        }
    }
}

/// No options.
pub open spec fn no_options() -> CliArgs {
    CliArgs { format: OutputFormat::Text, foreground: false }
}

/// Reads the options.
pub fn parse_args(raw: &Vec<String>) -> (r: Result<Request, String>)
    ensures
        r is Ok ==> options_from(no_options(), texts(raw@)) == Ok::<Request, Seq<char>>(r->Ok_0),
        r is Err ==> options_from(no_options(), texts(raw@)) == Err::<Request, Seq<char>>(
            r->Err_0@,
        ),
{
    let mut args = CliArgs { format: OutputFormat::Text, foreground: false };
    let ghost all = texts(raw@);
    assert(all.skip(0) =~= all);
    for i in 0..raw.len()
        invariant
            all == texts(raw@),
            options_from(no_options(), all) == options_from(args, all.skip(i as int)),
    {
        let arg = raw[i].as_str();
        assert(all.skip(i as int)[0] == arg@);
        assert(all.skip(i as int).drop_first() =~= all.skip(i as int + 1));
        if same_text(arg, "--foreground") {
            args.foreground = true;
        } else if same_text(arg, "--json") {
            if let OutputFormat::Text = args.format {
                args.format = OutputFormat::Json;
            }
        } else if same_text(arg, "--pretty") {
            args.format = OutputFormat::JsonPretty;
        } else if same_text(arg, "-h") || same_text(arg, "--help") {
            return Ok(Request::Help);
        } else if same_text(arg, "-V") || same_text(arg, "--version") {
            return Ok(Request::Version);
        } else {
            return Err("unknown argument: ".to_owned().concat(arg).concat(" (use -h for help)"));
        }
    }
    assert(all.skip(raw.len() as int) =~= Seq::empty());
    Ok(Request::Run(args))
}

/// The place of a text in a list; its length where it is not there.
pub open spec fn text_place(list: Seq<Seq<char>>, text: Seq<char>) -> int
    decreases list.len(),
{
    if list.len() == 0 || list[0] == text {
        0
    } else {
        1 + text_place(list.drop_first(), text)
    }
}

fn find_text(list: &Vec<String>, text: &str) -> (r: usize)
    ensures
        r == text_place(texts(list@), text@),
        r <= list@.len(),
{
    let ghost all = texts(list@);
    let mut k: usize = 0;
    assert(all.skip(0) =~= all);
    while k < list.len() && !same_text(list[k].as_str(), text)
        invariant
            k <= list@.len(),
            all == texts(list@),
            text_place(all, text@) == k + text_place(all.skip(k as int), text@),
        decreases list@.len() - k,
    {
        assert(all.skip(k as int)[0] == list@[k as int]@);
        assert(all.skip(k as int).drop_first() =~= all.skip(k as int + 1));
        k += 1;
    }
    if k < list.len() {
        assert(all.skip(k as int)[0] == list@[k as int]@);
    }
    k
}

/// The settings directory that the arguments name, and the arguments without it.
/// The option without a directory is an error.
pub fn take_config_dir(raw: &Vec<String>) -> (r: Result<(Option<String>, Vec<String>), String>)
    ensures
        ({
            let all = texts(raw@);
            let k = text_place(all, "--config-dir"@);
            if k >= all.len() {
                r is Ok && r->Ok_0.0 is None && texts(r->Ok_0.1@) == all
            } else if k + 1 >= all.len() {
                r is Err && r->Err_0@ == "--config-dir requires a path"@
            } else {
                &&& r is Ok
                &&& r->Ok_0.0 is Some
                &&& r->Ok_0.0->0@ == all[k + 1]
                &&& texts(r->Ok_0.1@) == all.take(k) + all.skip(k + 2)
            }
        }),
{
    let ghost all = texts(raw@);
    let k: usize = find_text(raw, "--config-dir");
    let n: usize = raw.len();
    let mut rest: Vec<String> = Vec::new();
    for i in 0..k
        invariant
            k <= n == raw@.len(),
            all == texts(raw@),
            texts(rest@) =~= all.take(i as int),
    {
        let ghost was = rest@;
        rest.push(raw[i].clone());
        assert(texts(rest@) =~= texts(was).push(raw@[i as int]@));
    }
    if k >= n {
        assert(texts(rest@) =~= all);
        return Ok((None, rest));
    }
    if k + 1 >= n {
        return Err("--config-dir requires a path".to_owned());
    }
    let dir = raw[k + 1].clone();
    for i in k + 2..n
        invariant
            k + 2 <= n == raw@.len(),
            all == texts(raw@),
            texts(rest@) =~= all.take(k as int) + all.subrange(k as int + 2, i as int),
    {
        let ghost was = rest@;
        rest.push(raw[i].clone());
        assert(texts(rest@) =~= texts(was).push(raw@[i as int]@));
    }
    assert(texts(rest@) =~= all.take(k as int) + all.skip(k as int + 2));
    Ok((Some(dir), rest))
}

/// Whether an argument asks to add a setting.
pub open spec fn is_add(arg: Seq<char>) -> bool {
    arg == "-add"@ || arg == "--add"@
}

/// Whether an argument asks to remove a setting.
pub open spec fn is_remove(arg: Seq<char>) -> bool {
    arg == "-remove"@ || arg == "--remove"@
}

/// Whether an argument asks to show the settings file.
pub open spec fn is_list(arg: Seq<char>) -> bool {
    arg == "-list"@ || arg == "--list"@
}

fn asks_add(arg: &str) -> (r: bool)
    ensures
        r == is_add(arg@),
{
    same_text(arg, "-add") || same_text(arg, "--add")
}

fn asks_remove(arg: &str) -> (r: bool)
    ensures
        r == is_remove(arg@),
{
    same_text(arg, "-remove") || same_text(arg, "--remove")
}

fn asks_list(arg: &str) -> (r: bool)
    ensures
        r == is_list(arg@),
{
    same_text(arg, "-list") || same_text(arg, "--list")
}

/// Whether the arguments are about the settings file.
pub fn has_config_actions(raw: &Vec<String>) -> (r: bool)
    ensures
        r == exists|i: int|
            0 <= i < raw@.len() && (is_add((#[trigger] raw@[i])@) || is_remove(raw@[i]@) || is_list(
                raw@[i]@,
            )),
{
    for i in 0..raw.len()
        invariant
            forall|j: int|
                0 <= j < i ==> !(is_add((#[trigger] raw@[j])@) || is_remove(raw@[j]@) || is_list(
                    raw@[j]@,
                )),
    {
        let arg = raw[i].as_str();
        if asks_add(arg) || asks_remove(arg) || asks_list(arg) {
            assert(is_add(raw@[i as int]@) || is_remove(raw@[i as int]@) || is_list(
                raw@[i as int]@,
            ));
            return true;
        }
    }
    false
}

/// What the arguments did to the settings so far.
pub ghost struct ActionState {
    pub settings: Settings,
    /// What was printed
    pub lines: Seq<Seq<char>>,
    pub modified: bool,
    pub list: bool,
    /// Why it ended early
    pub failure: Option<Seq<char>>,
}

/// What follows the first `=` of a text; nothing where there is none.
pub open spec fn after_equals(s: Seq<char>) -> Seq<char> {
    if first_index(s, '=') < s.len() {
        s.skip(first_index(s, '=') + 1)
    } else {
        Seq::empty()
    }
}

/// What stands before the first `=` of a text.
pub open spec fn before_equals(s: Seq<char>) -> Seq<char> {
    s.take(first_index(s, '='))
}

/// An end before all the arguments were taken.
pub open spec fn fails(s: ActionState, message: Seq<char>) -> ActionState {
    ActionState { failure: Some(message), ..s }
}

/// A change of the settings: it is printed, or ends the arguments.
pub open spec fn changed(
    s: ActionState,
    change: Result<(Settings, Seq<char>), Seq<char>>,
) -> ActionState {
    match change {
        Ok((settings, line)) => ActionState {
            settings,
            lines: s.lines.push(line),
            modified: true,
            ..s
        },
        Err(message) => fails(s, message),
    }
}

/// The first action: what it does, and how many arguments it takes.
pub open spec fn action(s: ActionState, target: Seq<char>, raw: Seq<Seq<char>>) -> (
    ActionState,
    nat,
) {
    if is_add(raw[0]) {
        if raw.len() == 1 {
            (fails(s, "-add requires <key> <value> (or key=value)"@), 1)
        } else if first_index(raw[1], '=') < raw[1].len() {
            (changed(s, add_setting(s.settings, target, before_equals(raw[1]), after_equals(raw[1]))), 2)
        } else if raw.len() == 2 {
            (fails(s, "-add "@ + raw[1] + " requires a value"@), 2)
        } else {
            (changed(s, add_setting(s.settings, target, raw[1], raw[2])), 3)
        }
    } else if is_remove(raw[0]) {
        if raw.len() == 1 {
            (fails(s, "-remove requires <key> [name]"@), 1)
        } else if raw.len() >= 3 && !(raw[2].len() > 0 && raw[2][0] == '-') {
            (changed(s, remove_setting(s.settings, target, raw[1], Some(raw[2]))), 3)
        } else {
            (changed(s, remove_setting(s.settings, target, raw[1], None)), 2)
        }
    } else if is_list(raw[0]) {
        (ActionState { list: true, ..s }, 1)
    } else {
        (
            fails(s, "cannot combine "@ + raw[0] + " with config actions (use -h for help)"@),
            1,
        )
    }
}

/// The actions one after another, up to the first that fails.
pub open spec fn actions_from(s: ActionState, target: Seq<char>, raw: Seq<Seq<char>>) -> ActionState
    decreases raw.len(),
{
    if raw.len() == 0 || s.failure is Some {
        s
    } else {
        let (next, used) = action(s, target, raw);
        actions_from(next, target, raw.skip(used as int))
    }
}

/// Whether the first action has no duration beyond 64 bits of milliseconds.
pub open spec fn action_in_range(raw: Seq<Seq<char>>) -> bool {
    is_add(raw[0]) && raw.len() >= 2 ==> if first_index(raw[1], '=') < raw[1].len() {
        takes_duration(before_equals(raw[1])) ==> duration_in_range(after_equals(raw[1]))
    } else {
        raw.len() >= 3 && takes_duration(raw[1]) ==> duration_in_range(raw[2])
    }
}

/// Whether no action that is carried out has a duration beyond 64 bits of
/// milliseconds.
pub open spec fn durations_in_range(s: ActionState, target: Seq<char>, raw: Seq<Seq<char>>) -> bool
    decreases raw.len(),
{
    if raw.len() == 0 || s.failure is Some {
        true
    } else {
        let (next, used) = action(s, target, raw);
        action_in_range(raw) && durations_in_range(next, target, raw.skip(used as int))
    }
}

/// What follows the first `=` of a text; nothing where there is none.
fn value_after_equals(s: &str) -> (r: String)
    ensures
        r@ == after_equals(s@),
{
    let chars = chars_of(s);
    let k: usize = find_char(&chars, '=');
    if k < chars.len() {
        let after = part(&chars, k + 1, chars.len());
        assert(after@ =~= after_equals(s@));
        string_of(&after)
    } else {
        let r = String::new();
        assert(r@ =~= after_equals(s@));
        r
    }
}

/// What came of the actions on the settings.
pub struct ActionOutcome {
    /// What to print
    pub lines: Vec<String>,
    /// Whether to save the settings
    pub modified: bool,
    /// Whether to show the settings file
    pub list: bool,
    /// Why it ended early; nothing is saved then
    pub failure: Option<String>,
}

/// The characters of an optional text.
pub open spec fn failure_of(failure: Option<String>) -> Option<Seq<char>> {
    match failure {
        Some(f) => Some(f@),
        None => None,
    }
}

/// An outcome and the settings as a state.
pub open spec fn state_of(o: ActionOutcome, settings: Settings) -> ActionState {
    ActionState {
        settings,
        lines: texts(o.lines@),
        modified: o.modified,
        list: o.list,
        failure: failure_of(o.failure),
    }
}

/// Nothing done yet.
pub open spec fn action_start(settings: Settings) -> ActionState {
    ActionState { settings, lines: Seq::empty(), modified: false, list: false, failure: None }
}

fn no_outcome() -> (r: ActionOutcome)
    ensures
        forall|settings: Settings| #[trigger] state_of(r, settings) == action_start(settings),
{
    let r = ActionOutcome { lines: Vec::new(), modified: false, list: false, failure: None };
    assert(texts(r.lines@) =~= Seq::empty());
    r
}

/// Takes account of a change that was tried.
fn note(o: &mut ActionOutcome, change: Result<String, String>)
    requires
        old(o).failure is None,
    ensures
        change is Ok ==> {
            &&& texts(final(o).lines@) == texts(old(o).lines@).push(change->Ok_0@)
            &&& final(o).modified
            &&& final(o).list == old(o).list
            &&& final(o).failure is None
        },
        change is Err ==> {
            &&& final(o).lines@ == old(o).lines@
            &&& final(o).modified == old(o).modified
            &&& final(o).list == old(o).list
            &&& failure_of(final(o).failure) == Some(change->Err_0@)
        },
{
    match change {
        Ok(line) => {
            let ghost was = o.lines@;
            o.lines.push(line);
            o.modified = true;
            assert(texts(o.lines@) =~= texts(was).push(line@));
        },
        Err(message) => {
            o.failure = Some(message);
        },
    }
}

/// Whether the action at `i` has no duration beyond 64 bits of milliseconds.
fn action_fits(raw: &Vec<String>, i: usize) -> (r: bool)
    requires
        i < raw@.len(),
    ensures
        r == action_in_range(texts(raw@).skip(i as int)),
{
    let ghost left = texts(raw@).skip(i as int);
    let n: usize = raw.len();
    assert(left[0] == raw@[i as int]@);
    if !asks_add(raw[i].as_str()) || n - i < 2 {
        return true;
    }
    let first = raw[i + 1].as_str();
    assert(left[1] == first@);
    let chars = chars_of(first);
    let k: usize = find_char(&chars, '=');
    if k < chars.len() {
        let key = part(&chars, 0, k);
        assert(key@ =~= before_equals(first@));
        let value = value_after_equals(first);
        !wants_duration(string_of(&key).as_str()) || duration_fits(value.as_str())
    } else if n - i < 3 {
        true
    } else {
        assert(left[2] == raw@[i as int + 2]@);
        !wants_duration(first) || duration_fits(raw[i + 2].as_str())
    }
}

/// Carries out the action at `i`; where the next one stands.
fn run_action(
    config: &mut FileConfig,
    o: &mut ActionOutcome,
    raw: &Vec<String>,
    i: usize,
    target_os: &str,
) -> (r: usize)
    requires
        i < raw@.len(),
        old(o).failure is None,
        action_in_range(texts(raw@).skip(i as int)),
    ensures
        ({
            let (next, used) = action(
                state_of(*old(o), old(config)@),
                target_os@,
                texts(raw@).skip(i as int),
            );
            &&& state_of(*final(o), final(config)@) == next
            &&& r == i + used
            &&& r <= raw@.len()
        }),
{
    let ghost left = texts(raw@).skip(i as int);
    let n: usize = raw.len();
    let arg = raw[i].as_str();
    assert(left[0] == arg@);
    if asks_add(arg) {
        if n - i == 1 {
            o.failure = Some("-add requires <key> <value> (or key=value)".to_owned());
            return i + 1;
        }
        let first = raw[i + 1].as_str();
        assert(left[1] == first@);
        let chars = chars_of(first);
        let k: usize = find_char(&chars, '=');
        if k < chars.len() {
            let key_chars = part(&chars, 0, k);
            assert(key_chars@ =~= before_equals(first@));
            let key = string_of(&key_chars);
            let value = value_after_equals(first);
            let change = apply_add(config, key.as_str(), value.as_str(), target_os);
            note(o, change);
            i + 2
        } else if n - i == 2 {
            o.failure = Some("-add ".to_owned().concat(first).concat(" requires a value"));
            i + 2
        } else {
            let value = raw[i + 2].as_str();
            assert(left[2] == value@);
            let change = apply_add(config, first, value, target_os);
            note(o, change);
            i + 3
        }
    } else if asks_remove(arg) {
        if n - i == 1 {
            o.failure = Some("-remove requires <key> [name]".to_owned());
            return i + 1;
        }
        let key = raw[i + 1].as_str();
        assert(left[1] == key@);
        let mut named: bool = false;
        if n - i >= 3 {
            let next = chars_of(raw[i + 2].as_str());
            assert(left[2] == next@);
            named = !(next.len() > 0 && next[0] == '-');
        }
        if named {
            let change = apply_remove(config, key, Some(raw[i + 2].as_str()), target_os);
            note(o, change);
            i + 3
        } else {
            let change = apply_remove(config, key, None, target_os);
            note(o, change);
            i + 2
        }
    } else if asks_list(arg) {
        o.list = true;
        i + 1
    } else {
        o.failure = Some(
            "cannot combine ".to_owned().concat(arg).concat(
                " with config actions (use -h for help)",
            ),
        );
        i + 1
    }
}

/// Whether no action that would be carried out on these settings has a duration
/// beyond 64 bits of milliseconds.
pub fn durations_fit(config: FileConfig, raw: &Vec<String>, target_os: &str) -> (r: bool)
    ensures
        r == durations_in_range(action_start(config@), target_os@, texts(raw@)),
{
    let ghost all = texts(raw@);
    let mut settings = config;
    let mut o = no_outcome();
    let mut i: usize = 0;
    assert(all.skip(0) =~= all);
    while i < raw.len() && o.failure.is_none()
        invariant
            i <= raw@.len(),
            all == texts(raw@),
            durations_in_range(action_start(config@), target_os@, all) == durations_in_range(
                state_of(o, settings@),
                target_os@,
                all.skip(i as int),
            ),
        decreases raw@.len() - i,
    {
        if !action_fits(raw, i) {
            return false;
        }
        let ghost left = all.skip(i as int);
        let ghost used = action(state_of(o, settings@), target_os@, left).1;
        i = run_action(&mut settings, &mut o, raw, i, target_os);
        assert(left.skip(used as int) =~= all.skip(i as int));
    }
    true
}

/// Carries out the actions on the settings that the arguments ask for. The first
/// one that fails ends them.
pub fn run_config_actions(config: &mut FileConfig, raw: &Vec<String>, target_os: &str) -> (r:
    ActionOutcome)
    requires
        durations_in_range(action_start(old(config)@), target_os@, texts(raw@)),
    ensures
        state_of(r, final(config)@) == actions_from(
            action_start(old(config)@),
            target_os@,
            texts(raw@),
        ),
{
    let ghost all = texts(raw@);
    let mut o = no_outcome();
    let mut i: usize = 0;
    assert(all.skip(0) =~= all);
    while i < raw.len() && o.failure.is_none()
        invariant
            i <= raw@.len(),
            all == texts(raw@),
            durations_in_range(state_of(o, config@), target_os@, all.skip(i as int)),
            actions_from(action_start(old(config)@), target_os@, all) == actions_from(
                state_of(o, config@),
                target_os@,
                all.skip(i as int),
            ),
        decreases raw@.len() - i,
    {
        let ghost left = all.skip(i as int);
        let ghost used = action(state_of(o, config@), target_os@, left).1;
        i = run_action(config, &mut o, raw, i, target_os);
        assert(left.skip(used as int) =~= all.skip(i as int));
    }
    o
}

/// A mode of the program.
#[derive(Debug, Clone, PartialEq, Eq)]
pub enum Command {
    /// The live view in the foreground
    Live,
    Serve,
    Attach,
    Stop,
    Unknown(String),
}

/// The mode that the first argument names; an option names none.
pub open spec fn names_command(raw: Seq<Seq<char>>) -> bool {
    raw.len() > 0 && !(raw[0].len() > 0 && raw[0][0] == '-')
}

/// The mode that the arguments name, and the options.
pub fn take_command(raw: &Vec<String>) -> (r: (Command, Vec<String>))
    ensures
        ({
            let all = texts(raw@);
            &&& texts(r.1@) == if names_command(all) {
                all.skip(1)
            } else {
                all
            }
            &&& !names_command(all) ==> r.0 is Live
            &&& names_command(all) ==> if all[0] == "serve"@ {
                r.0 is Serve
            } else if all[0] == "attach"@ {
                r.0 is Attach
            } else if all[0] == "stop"@ {
                r.0 is Stop
            } else {
                r.0 is Unknown && r.0->Unknown_0@ == all[0]
            }
        }),
{
    let ghost all = texts(raw@);
    let n: usize = raw.len();
    let mut named: bool = false;
    let mut command = Command::Live;
    if n > 0 {
        let first = chars_of(raw[0].as_str());
        assert(all[0] == first@);
        named = !(first.len() > 0 && first[0] == '-');
        if named {
            let arg = raw[0].as_str();
            command = if same_text(arg, "serve") {
                Command::Serve
            } else if same_text(arg, "attach") {
                Command::Attach
            } else if same_text(arg, "stop") {
                Command::Stop
            } else {
                Command::Unknown(raw[0].clone())
            };
        }
    }
    let from: usize = if named {
        1
    } else {
        0
    };
    let mut rest: Vec<String> = Vec::new();
    for i in from..n
        invariant
            from <= n == raw@.len(),
            all == texts(raw@),
            texts(rest@) =~= all.subrange(from as int, i as int),
    {
        let ghost was = rest@;
        rest.push(raw[i].clone());
        assert(texts(rest@) =~= texts(was).push(raw@[i as int]@));
    }
    assert(texts(rest@) =~= all.skip(from as int));
    assert(all.skip(0) =~= all);
    (command, rest)
}

/// Whether a mode reads the settings file. Stopping a daemon works with a broken
/// one.
pub fn needs_file(command: &Command) -> (r: bool)
    ensures
        r == (command is Live || command is Serve),
{
    match command {
        Command::Live => true,
        Command::Serve => true,
        _ => false,
    }
}

/// The settings of the live view: everything is read anew every time.
pub fn foreground_config(config: CollectorConfig) -> (r: CollectorConfig)
    ensures
        r@ == (CollectorView {
            process_refresh_interval: seconds(0),
            cpu_frequency_refresh_interval: seconds(0),
            disk_storage_refresh_interval: seconds(0),
            disk_io_refresh_interval: seconds(0),
            network_refresh_interval: seconds(0),
            temperature_refresh_interval: seconds(0),
            ..config@
        }),
{
    let mut c = config;
    c.process_refresh_interval = Duration::zero();
    c.cpu_frequency_refresh_interval = Duration::zero();
    c.disk_storage_refresh_interval = Duration::zero();
    c.disk_io_refresh_interval = Duration::zero();
    c.network_refresh_interval = Duration::zero();
    c.temperature_refresh_interval = Duration::zero();
    c
}

/// How the daemon runs.
pub struct ServePlan {
    /// Start in the background and end
    pub detach: bool,
    pub interval: Duration,
    pub history: Duration,
    pub config: CollectorConfig,
}

/// How the daemon runs: as the settings say, in the background every two seconds
/// with five minutes of history where they are silent, and with the processes
/// every ten seconds.
pub fn serve_plan(foreground: bool, daemon: &DaemonConfig, collector: CollectorConfig) -> (r:
    ServePlan)
    ensures
        r.detach == (!foreground && daemon.detach != Some(false)),
        r.interval == match daemon.interval {
            Some(d) => d,
            None => seconds(2),
        },
        r.history == match daemon.history {
            Some(d) => d,
            None => seconds(300),
        },
        r.config@ == if collector.process_refresh_interval.nanos == 0 {
            CollectorView { process_refresh_interval: seconds(10), ..collector@ }
        } else {
            collector@
        },
{
    let detach: bool = !foreground && match daemon.detach {
        Some(on) => on,
        None => true,
    };
    let interval = match daemon.interval {
        Some(d) => d,
        None => Duration::from_millis(2_000),
    };
    let history = match daemon.history {
        Some(d) => d,
        None => Duration::from_secs(300),
    };
    let mut config = collector;
    if config.process_refresh_interval.is_zero() {
        config.process_refresh_interval = Duration::from_secs(10);
    }
    ServePlan { detach, interval, history, config }
}

/// The arguments without those that a test names.
pub open spec fn without(raw: Seq<Seq<char>>, a: Seq<char>, b: Seq<char>) -> Seq<Seq<char>>
    decreases raw.len(),
{
    if raw.len() == 0 {
        Seq::empty()
    } else {
        let rest = without(raw.drop_last(), a, b);
        if raw.last() == a || raw.last() == b {
            rest
        } else {
            rest.push(raw.last())
        }
    }
}

fn drop_args(raw: &Vec<String>, a: &str, b: &str, start: Vec<String>) -> (r: Vec<String>)
    ensures
        texts(r@) == texts(start@) + without(texts(raw@), a@, b@),
{
    let mut out = start;
    let ghost all = texts(raw@);
    let ghost first = texts(start@);
    assert(first + Seq::empty() =~= first);
    for i in 0..raw.len()
        invariant
            all == texts(raw@),
            texts(out@) == first + without(all.take(i as int), a@, b@),
    {
        let ghost was = out@;
        assert(all.take(i as int + 1).drop_last() =~= all.take(i as int));
        assert(all[i as int] == raw@[i as int]@);
        if !same_text(raw[i].as_str(), a) && !same_text(raw[i].as_str(), b) {
            out.push(raw[i].clone());
            assert(texts(out@) =~= texts(was).push(raw@[i as int]@));
            assert(texts(out@) =~= first + without(all.take(i as int + 1), a@, b@));
        }
    }
    assert(all.take(raw.len() as int) =~= all);
    out
}

/// The arguments that start a daemon from a live view: the same without the
/// output formats, in the foreground since it is detached already.
pub fn daemon_args(raw: &Vec<String>) -> (r: Vec<String>)
    ensures
        texts(r@) == seq!["serve"@] + without(texts(raw@), "--json"@, "--pretty"@) + seq![
            "--foreground"@,
        ],
{
    let mut start: Vec<String> = Vec::new();
    start.push("serve".to_owned());
    assert(texts(start@) =~= seq!["serve"@]);
    let mut out = drop_args(raw, "--json", "--pretty", start);
    let ghost was = out@;
    out.push("--foreground".to_owned());
    assert(texts(out@) =~= texts(was) + seq!["--foreground"@]);
    out
}

/// The arguments that start the detached daemon: the same without the option to
/// detach, in the foreground since it is detached already.
pub fn detached_args(raw: &Vec<String>) -> (r: Vec<String>)
    ensures
        texts(r@) == without(texts(raw@), "--detach"@, "--detach"@) + seq!["--foreground"@],
{
    let start: Vec<String> = Vec::new();
    assert(texts(start@) =~= Seq::empty());
    let mut out = drop_args(raw, "--detach", "--detach", start);
    let ghost was = out@;
    out.push("--foreground".to_owned());
    assert(texts(out@) =~= without(texts(raw@), "--detach"@, "--detach"@) + seq![
        "--foreground"@,
    ]);
    out
}

/// A failed action leaves the later ones undone.
pub proof fn law_failure_ends_the_actions(
    s: ActionState,
    target: Seq<char>,
    raw: Seq<Seq<char>>,
)
    requires
        s.failure is Some,
    ensures
        actions_from(s, target, raw) == s,
{
}

/// Whether an option is among the arguments.
pub open spec fn given(raw: Seq<Seq<char>>, option: Seq<char>) -> bool {
    exists|i: int| 0 <= i < raw.len() && #[trigger] raw[i] == option
}

/// Options in any number and order say what they say: `--foreground` that the
/// foreground is meant, `--pretty` that JSON over several lines is, and `--json`
/// without it that JSON on one line is.
pub proof fn law_options_in_any_order(raw: Seq<Seq<char>>)
    requires
        forall|i: int|
            0 <= i < raw.len() ==> #[trigger] raw[i] == "--foreground"@ || raw[i] == "--json"@
                || raw[i] == "--pretty"@,
    ensures
        options_from(no_options(), raw) == Ok::<Request, Seq<char>>(
            Request::Run(
                CliArgs {
                    foreground: given(raw, "--foreground"@),
                    format: if given(raw, "--pretty"@) {
                        OutputFormat::JsonPretty
                    } else if given(raw, "--json"@) {
                        OutputFormat::Json
                    } else {
                        OutputFormat::Text
                    },
                },
            ),
        ),
{
    lemma_options(no_options(), raw);
}

/// Options after others.
proof fn lemma_options(args: CliArgs, raw: Seq<Seq<char>>)
    requires
        forall|i: int|
            0 <= i < raw.len() ==> #[trigger] raw[i] == "--foreground"@ || raw[i] == "--json"@
                || raw[i] == "--pretty"@,
    ensures
        options_from(args, raw) == Ok::<Request, Seq<char>>(
            Request::Run(
                CliArgs {
                    foreground: args.foreground || given(raw, "--foreground"@),
                    format: if args.format == OutputFormat::JsonPretty || given(
                        raw,
                        "--pretty"@,
                    ) {
                        OutputFormat::JsonPretty
                    } else if args.format == OutputFormat::Json || given(raw, "--json"@) {
                        OutputFormat::Json
                    } else {
                        OutputFormat::Text
                    },
                },
            ),
        ),
    decreases raw.len(),
{
    reveal_strlit("--foreground");
    reveal_strlit("--json");
    reveal_strlit("--pretty");
    assert("--foreground"@.len() == 12 && "--json"@.len() == 6 && "--pretty"@.len() == 8);
    if raw.len() > 0 {
        let rest = raw.drop_first();
        assert forall|i: int| 0 <= i < rest.len() implies #[trigger] rest[i] == "--foreground"@
            || rest[i] == "--json"@ || rest[i] == "--pretty"@ by {
            assert(rest[i] == raw[i + 1]);
        }
        lemma_given(raw, "--foreground"@);
        lemma_given(raw, "--json"@);
        lemma_given(raw, "--pretty"@);
        let next = if raw[0] == "--foreground"@ {
            CliArgs { foreground: true, ..args }
        } else if raw[0] == "--json"@ {
            CliArgs {
                format: if args.format == OutputFormat::Text {
                    OutputFormat::Json
                } else {
                    args.format
                },
                ..args
            }
        } else {
            CliArgs { format: OutputFormat::JsonPretty, ..args }
        };
        assert(raw[0] == "--foreground"@ || raw[0] == "--json"@ || raw[0] == "--pretty"@);
        lemma_options(next, rest);
    }
}

/// An option is the first argument or among the others.
proof fn lemma_given(raw: Seq<Seq<char>>, option: Seq<char>)
    requires
        raw.len() > 0,
    ensures
        given(raw, option) <==> raw[0] == option || given(raw.drop_first(), option),
{
    let rest = raw.drop_first();
    if given(raw, option) {
        let i = choose|i: int| 0 <= i < raw.len() && #[trigger] raw[i] == option;
        if i > 0 {
            assert(rest[i - 1] == option);
        }
    }
    if given(rest, option) {
        let i = choose|i: int| 0 <= i < rest.len() && #[trigger] rest[i] == option;
        assert(raw[i + 1] == option);
    }
}

/// A key and a value are set alike whether an equals sign or a space stands between
/// them, and then the other actions follow. What is set is what the key and the
/// value say, and the settings are to be saved.
pub proof fn law_two_ways_to_set(
    s: ActionState,
    target: Seq<char>,
    key: Seq<char>,
    value: Seq<char>,
    rest: Seq<Seq<char>>,
)
    requires
        s.failure is None,
        forall|i: int| 0 <= i < key.len() ==> #[trigger] key[i] != '=',
    ensures
        actions_from(s, target, seq!["-add"@, key, value] + rest) == actions_from(
            s,
            target,
            seq!["-add"@, key + seq!['='] + value] + rest,
        ),
        ({
            let after = actions_from(s, target, seq!["-add"@, key, value]);
            match add_setting(s.settings, target, key, value) {
                Ok((settings, line)) => after.settings == settings && after.modified
                    && after.failure is None && after.lines == s.lines.push(line),
                Err(message) => after.settings == s.settings && after.failure == Some(message)
                    && after.modified == s.modified && after.lines == s.lines,
            }
        }),
{
    let spaced = seq!["-add"@, key, value] + rest;
    let joined = seq!["-add"@, key + seq!['='] + value] + rest;
    let pair = key + seq!['='] + value;
    lemma_first_index(key, '=');
    lemma_first_index(pair, '=');
    let k = first_index(pair, '=');
    assert(pair[key.len() as int] == '=');
    assert(k == key.len()) by {
        if k < key.len() {
            assert(pair[k] == key[k]);
        }
    }
    assert(before_equals(pair) =~= key);
    assert(after_equals(pair) =~= value);
    assert(first_index(key, '=') == key.len()) by {
        if first_index(key, '=') < key.len() {
            assert(key[first_index(key, '=')] != '=');
        }
    }
    assert(spaced.skip(3) =~= rest);
    assert(joined.skip(2) =~= rest);
    let alone = seq!["-add"@, key, value];
    assert(alone.skip(3) =~= Seq::<Seq<char>>::empty());
    let (next, used) = action(s, target, alone);
    assert(actions_from(next, target, Seq::<Seq<char>>::empty()) == next);
}

} // verus!
