//! The command line.
use vstd::prelude::*;

use crate::recorder;
use crate::text;
use crate::text::parse_number;
use crate::text::same_text;

verus! {

/// The port of the dashboard, where none is given.
pub const DEFAULT_PORT: u16 = 48_121;

/// The seconds that a query of the dashboard may take, where none are given.
pub const DEFAULT_QUERY_TIMEOUT_SECONDS: u64 = 15;

/// What an argument says as a percentage. Percentages are doubles, carried by their bits.
#[derive(Clone, Copy, Debug, PartialEq, Eq, Structural)]
pub enum Percentage {
    /// It is no number.
    NotANumber,
    /// It is a number that is not between zero and a hundred.
    OutOfRange,
    /// It is a percentage.
    Valid(u64),
}

/// What is to be done.
#[derive(Debug)]
pub enum Command {
    Version,
    Run,
    Status,
    History(usize),
    Windows,
    Sync,
    Estimate,
    Day(String, String),
    Capacity,
    Reconcile(Option<u64>),
    Diagnose,
    Export,
    Serve(u16, u64),
    Open(u16, bool),
    Close,
    Install,
    Uninstall,
    Start,
    Stop,
    Paths,
    Help,
}

/// What is to be done.
#[verifier::ext_equal]
pub enum CommandView {
    Version,
    Run,
    Status,
    History(int),
    Windows,
    Sync,
    Estimate,
    Day(Seq<char>, Seq<char>),
    Capacity,
    Reconcile(Option<u64>),
    Diagnose,
    Export,
    Serve(int, int),
    Open(int, bool),
    Close,
    Install,
    Uninstall,
    Start,
    Stop,
    Paths,
    Help,
}

impl View for Command {
    type V = CommandView;

    open spec fn view(&self) -> CommandView {
        match self {
            Command::Version => CommandView::Version,
            Command::Run => CommandView::Run,
            Command::Status => CommandView::Status,
            Command::History(limit) => CommandView::History(*limit as int),
            Command::Windows => CommandView::Windows,
            Command::Sync => CommandView::Sync,
            Command::Estimate => CommandView::Estimate,
            Command::Day(date, timezone) => CommandView::Day(date@, timezone@),
            Command::Capacity => CommandView::Capacity,
            Command::Reconcile(percent) => CommandView::Reconcile(*percent),
            Command::Diagnose => CommandView::Diagnose,
            Command::Export => CommandView::Export,
            Command::Serve(port, seconds) => CommandView::Serve(*port as int, *seconds as int),
            Command::Open(port, browser) => CommandView::Open(*port as int, *browser),
            Command::Close => CommandView::Close,
            Command::Install => CommandView::Install,
            Command::Uninstall => CommandView::Uninstall,
            Command::Start => CommandView::Start,
            Command::Stop => CommandView::Stop,
            Command::Paths => CommandView::Paths,
            Command::Help => CommandView::Help,
        }
    }
}

/// The limit of a history after more arguments: the last one that is given, between one and ten
/// thousand. Other arguments are passed over.
pub open spec fn history_of(args: Seq<Seq<char>>, limit: int) -> Result<CommandView, Seq<char>>
    decreases args.len(),
{
    if args.len() == 0 {
        Ok(CommandView::History(limit))
    } else if args[0] != "--limit"@ {
        history_of(args.skip(1), limit)
    } else if args.len() == 1 {
        Err("--limit requires a number"@)
    } else {
        match text::number_of_text(args[1], usize::MAX as nat) {
            Some(number) => history_of(
                args.skip(2),
                recorder::clamped(number as int, 1, 10_000),
            ),
            None => Err("invalid --limit value"@),
        }
    }
}

/// The day that more arguments ask for.
pub open spec fn day_of(
    args: Seq<Seq<char>>,
    date: Option<Seq<char>>,
    timezone: Option<Seq<char>>,
) -> Result<CommandView, Seq<char>>
    decreases args.len(),
{
    if args.len() == 0 {
        match (date, timezone) {
            (None, _) => Err("day requires --date YYYY-MM-DD"@),
            (Some(_), None) => Err("day requires --timezone with an IANA name"@),
            (Some(date), Some(timezone)) => Ok(CommandView::Day(date, timezone)),
        }
    } else {
        let (value, rest) = if args.len() > 1 {
            (Some(args[1]), args.skip(2))
        } else {
            (None, Seq::empty())
        };
        if args[0] == "--date"@ {
            day_of(rest, value, timezone)
        } else if args[0] == "--timezone"@ {
            day_of(rest, date, value)
        } else {
            Err("unknown day option: "@ + args[0])
        }
    }
}

/// The percentage that more arguments give.
pub open spec fn reconcile_of(
    args: Seq<Seq<char>>,
    percentages: Seq<Percentage>,
    percent: Option<u64>,
) -> Result<CommandView, Seq<char>>
    decreases args.len(),
{
    if args.len() == 0 {
        Ok(CommandView::Reconcile(percent))
    } else if args[0] != "--web-used-percent"@ {
        Err("unknown reconcile option: "@ + args[0])
    } else if args.len() == 1 {
        Err("--web-used-percent requires a number"@)
    } else {
        match percentages[1] {
            Percentage::NotANumber => Err("invalid --web-used-percent value"@),
            Percentage::OutOfRange => Err("--web-used-percent must be between 0 and 100"@),
            Percentage::Valid(bits) => reconcile_of(
                args.skip(2),
                percentages.skip(2),
                Some(bits),
            ),
        }
    }
}

/// The port and the timeout that more arguments give.
pub open spec fn serve_of(args: Seq<Seq<char>>, port: int, seconds: int) -> Result<
    CommandView,
    Seq<char>,
>
    decreases args.len(),
{
    if args.len() == 0 {
        Ok(CommandView::Serve(port, seconds))
    } else if args[0] == "--port"@ {
        if args.len() == 1 {
            Err("--port requires a number"@)
        } else {
            match text::number_of_text(args[1], u16::MAX as nat) {
                Some(number) => serve_of(args.skip(2), number as int, seconds),
                None => Err("invalid --port value"@),
            }
        }
    } else if args[0] == "--query-timeout-seconds"@ {
        if args.len() == 1 {
            Err("--query-timeout-seconds requires a number"@)
        } else {
            match text::number_of_text(args[1], u64::MAX as nat) {
                Some(number) => serve_of(
                    args.skip(2),
                    port,
                    recorder::clamped(number as int, 1, 120),
                ),
                None => Err("invalid --query-timeout-seconds value"@),
            }
        }
    } else {
        Err("unknown serve option: "@ + args[0])
    }
}

/// The port that more arguments give, and whether they leave the browser alone.
pub open spec fn open_of(args: Seq<Seq<char>>, port: int, browser: bool) -> Result<
    CommandView,
    Seq<char>,
>
    decreases args.len(),
{
    if args.len() == 0 {
        if port == 0 {
            Err("open requires a fixed nonzero port"@)
        } else {
            Ok(CommandView::Open(port, browser))
        }
    } else if args[0] == "--port"@ {
        if args.len() == 1 {
            Err("--port requires a number"@)
        } else {
            match text::number_of_text(args[1], u16::MAX as nat) {
                Some(number) => open_of(args.skip(2), number as int, browser),
                None => Err("invalid open port"@),
            }
        }
    } else if args[0] == "--no-browser"@ {
        open_of(args.skip(1), port, false)
    } else {
        Err("unknown open option: "@ + args[0])
    }
}

/// What arguments ask for. Without any they ask for help.
pub open spec fn command_of(args: Seq<Seq<char>>, percentages: Seq<Percentage>) -> Result<
    CommandView,
    Seq<char>,
> {
    if args.len() == 0 {
        Ok(CommandView::Help)
    } else {
        let name = args[0];
        let rest = args.skip(1);
        if name == "version"@ || name == "--version"@ || name == "-V"@ {
            Ok(CommandView::Version)
        } else if name == "run"@ {
            Ok(CommandView::Run)
        } else if name == "status"@ {
            Ok(CommandView::Status)
        } else if name == "history"@ {
            history_of(rest, 100)
        } else if name == "windows"@ {
            Ok(CommandView::Windows)
        } else if name == "sync"@ {
            Ok(CommandView::Sync)
        } else if name == "estimate"@ {
            Ok(CommandView::Estimate)
        } else if name == "day"@ {
            day_of(rest, None, None)
        } else if name == "capacity"@ {
            Ok(CommandView::Capacity)
        } else if name == "reconcile"@ {
            reconcile_of(rest, percentages.skip(1), None)
        } else if name == "diagnose"@ {
            Ok(CommandView::Diagnose)
        } else if name == "export"@ {
            Ok(CommandView::Export)
        } else if name == "serve"@ {
            serve_of(rest, DEFAULT_PORT as int, DEFAULT_QUERY_TIMEOUT_SECONDS as int)
        } else if name == "open"@ {
            open_of(rest, DEFAULT_PORT as int, true)
        } else if name == "close"@ {
            Ok(CommandView::Close)
        } else if name == "install"@ {
            Ok(CommandView::Install)
        } else if name == "uninstall"@ {
            Ok(CommandView::Uninstall)
        } else if name == "start"@ {
            Ok(CommandView::Start)
        } else if name == "stop"@ {
            Ok(CommandView::Stop)
        } else if name == "paths"@ {
            Ok(CommandView::Paths)
        } else if name == "help"@ || name == "--help"@ || name == "-h"@ {
            Ok(CommandView::Help)
        } else {
            Err("unknown command: "@ + name)
        }
    }
}

/// Whether a parsed command is the one that was asked for.
pub open spec fn is_command(
    parsed: Result<Command, String>,
    expected: Result<CommandView, Seq<char>>,
) -> bool {
    match expected {
        Ok(command) => parsed matches Ok(found) && found@ == command,
        Err(error) => parsed matches Err(found) && found@ == error,
    }
}

/// A message about an argument.
fn about(prefix: &str, arg: &str) -> (message: String)
    ensures
        message@ == prefix@ + arg@,
{
    let mut message = prefix.to_owned();
    message.append(arg);
    message
}

/// The arguments from a place on.
pub open spec fn args_from(args: Seq<String>, from: int) -> Seq<Seq<char>> {
    text::views(args).skip(from)
}

/// The first argument from a place on stands at that place.
proof fn args_step(args: Seq<String>, from: int)
    requires
        0 <= from < args.len(),
    ensures
        args_from(args, from).len() == args.len() - from,
        args_from(args, from)[0] == args[from]@,
        from + 1 < args.len() ==> args_from(args, from)[1] == args[from + 1]@,
        args_from(args, from).skip(1) == args_from(args, from + 1),
        from + 1 < args.len() ==> args_from(args, from).skip(2) == args_from(args, from + 2),
        from + 1 == args.len() ==> args_from(args, from).skip(1).len() == 0,
{
    assert(args_from(args, from).skip(1) =~= args_from(args, from + 1));
    if from + 1 < args.len() {
        assert(args_from(args, from).skip(2) =~= args_from(args, from + 2));
    }
}

/// Reads the arguments of a history.
fn parse_history(args: &Vec<String>) -> (parsed: Result<Command, String>)
    requires
        args@.len() >= 1,
    ensures
        is_command(parsed, history_of(args_from(args@, 1), 100)),
{
    let mut limit: usize = 100;
    let mut i: usize = 1;
    while i < args.len()
        invariant
            1 <= i <= args@.len(),
            history_of(args_from(args@, i as int), limit as int) == history_of(
                args_from(args@, 1),
                100,
            ),
        decreases args@.len() - i,
    {
        proof {
            args_step(args@, i as int);
        }
        if !same_text(args[i].as_str(), "--limit") {
            i += 1;
            continue ;
        }
        if i + 1 == args.len() {
            return Err("--limit requires a number".to_owned());
        }
        match parse_number(args[i + 1].as_str(), usize::MAX as u64) {
            Some(number) => {
                limit = if number < 1 {
                    1
                } else if number > 10_000 {
                    10_000
                } else {
                    number as usize
                };
            },
            None => {
                return Err("invalid --limit value".to_owned());
            },
        }
        i += 2;
    }
    Ok(Command::History(limit))
}

/// Reads the arguments of a day.
fn parse_day(args: &Vec<String>) -> (parsed: Result<Command, String>)
    requires
        args@.len() >= 1,
    ensures
        is_command(parsed, day_of(args_from(args@, 1), None, None)),
{
    let mut date: Option<String> = None;
    let mut timezone: Option<String> = None;
    let mut i: usize = 1;
    while i < args.len()
        invariant
            1 <= i <= args@.len(),
            day_of(
                args_from(args@, i as int),
                text::opt_view(date),
                text::opt_view(timezone),
            ) == day_of(args_from(args@, 1), None, None),
        decreases args@.len() - i,
    {
        proof {
            args_step(args@, i as int);
            if i + 1 == args@.len() {
                assert(args_from(args@, i + 1) =~= Seq::<Seq<char>>::empty());
            }
        }
        let value = if i + 1 < args.len() {
            Some(args[i + 1].clone())
        } else {
            None
        };
        if same_text(args[i].as_str(), "--date") {
            date = value;
        } else if same_text(args[i].as_str(), "--timezone") {
            timezone = value;
        } else {
            return Err(about("unknown day option: ", args[i].as_str()));
        }
        i = if i + 1 < args.len() {
            i + 2
        } else {
            i + 1
        };
    }
    match (date, timezone) {
        (None, _) => Err("day requires --date YYYY-MM-DD".to_owned()),
        (Some(_), None) => Err("day requires --timezone with an IANA name".to_owned()),
        (Some(date), Some(timezone)) => Ok(Command::Day(date, timezone)),
    }
}

/// Reads the arguments of a reconciliation.
fn parse_reconcile(args: &Vec<String>, percentages: &Vec<Percentage>) -> (parsed: Result<
    Command,
    String,
>)
    requires
        args@.len() >= 1,
        percentages@.len() == args@.len(),
    ensures
        is_command(parsed, reconcile_of(args_from(args@, 1), percentages@.skip(1), None)),
{
    let mut percent: Option<u64> = None;
    let mut i: usize = 1;
    while i < args.len()
        invariant
            1 <= i <= args@.len(),
            percentages@.len() == args@.len(),
            reconcile_of(args_from(args@, i as int), percentages@.skip(i as int), percent)
                == reconcile_of(args_from(args@, 1), percentages@.skip(1), None),
        decreases args@.len() - i,
    {
        proof {
            args_step(args@, i as int);
        }
        if !same_text(args[i].as_str(), "--web-used-percent") {
            return Err(about("unknown reconcile option: ", args[i].as_str()));
        }
        if i + 1 == args.len() {
            return Err("--web-used-percent requires a number".to_owned());
        }
        assert(percentages@.skip(i as int)[1] == percentages@[i + 1]);
        assert(percentages@.skip(i as int).skip(2) =~= percentages@.skip(i + 2));
        match percentages[i + 1] {
            Percentage::NotANumber => {
                return Err("invalid --web-used-percent value".to_owned());
            },
            Percentage::OutOfRange => {
                return Err("--web-used-percent must be between 0 and 100".to_owned());
            },
            Percentage::Valid(bits) => {
                percent = Some(bits);
            },
        }
        i += 2;
    }
    Ok(Command::Reconcile(percent))
}

/// Reads the arguments of the dashboard's server.
fn parse_serve(args: &Vec<String>) -> (parsed: Result<Command, String>)
    requires
        args@.len() >= 1,
    ensures
        is_command(
            parsed,
            serve_of(
                args_from(args@, 1),
                DEFAULT_PORT as int,
                DEFAULT_QUERY_TIMEOUT_SECONDS as int,
            ),
        ),
{
    let mut port: u16 = DEFAULT_PORT;
    let mut seconds: u64 = DEFAULT_QUERY_TIMEOUT_SECONDS;
    let mut i: usize = 1;
    while i < args.len()
        invariant
            1 <= i <= args@.len(),
            serve_of(args_from(args@, i as int), port as int, seconds as int) == serve_of(
                args_from(args@, 1),
                DEFAULT_PORT as int,
                DEFAULT_QUERY_TIMEOUT_SECONDS as int,
            ),
        decreases args@.len() - i,
    {
        proof {
            args_step(args@, i as int);
        }
        if same_text(args[i].as_str(), "--port") {
            if i + 1 == args.len() {
                return Err("--port requires a number".to_owned());
            }
            match parse_number(args[i + 1].as_str(), 65_535) {
                Some(number) => {
                    port = number as u16;
                },
                None => {
                    return Err("invalid --port value".to_owned());
                },
            }
        } else if same_text(args[i].as_str(), "--query-timeout-seconds") {
            if i + 1 == args.len() {
                return Err("--query-timeout-seconds requires a number".to_owned());
            }
            match parse_number(args[i + 1].as_str(), 18_446_744_073_709_551_615) {
                Some(number) => {
                    seconds = if number < 1 {
                        1
                    } else if number > 120 {
                        120
                    } else {
                        number
                    };
                },
                None => {
                    return Err("invalid --query-timeout-seconds value".to_owned());
                },
            }
        } else {
            return Err(about("unknown serve option: ", args[i].as_str()));
        }
        i += 2;
    }
    Ok(Command::Serve(port, seconds))
}

/// Reads the arguments that open the dashboard.
fn parse_open(args: &Vec<String>) -> (parsed: Result<Command, String>)
    requires
        args@.len() >= 1,
    ensures
        is_command(parsed, open_of(args_from(args@, 1), DEFAULT_PORT as int, true)),
{
    let mut port: u16 = DEFAULT_PORT;
    let mut browser = true;
    let mut i: usize = 1;
    while i < args.len()
        invariant
            1 <= i <= args@.len(),
            open_of(args_from(args@, i as int), port as int, browser) == open_of(
                args_from(args@, 1),
                DEFAULT_PORT as int,
                true,
            ),
        decreases args@.len() - i,
    {
        proof {
            args_step(args@, i as int);
        }
        if same_text(args[i].as_str(), "--port") {
            if i + 1 == args.len() {
                return Err("--port requires a number".to_owned());
            }
            match parse_number(args[i + 1].as_str(), 65_535) {
                Some(number) => {
                    port = number as u16;
                },
                None => {
                    return Err("invalid open port".to_owned());
                },
            }
            i += 2;
        } else if same_text(args[i].as_str(), "--no-browser") {
            browser = false;
            i += 1;
        } else {
            return Err(about("unknown open option: ", args[i].as_str()));
        }
    }
    if port == 0 {
        return Err("open requires a fixed nonzero port".to_owned());
    }
    Ok(Command::Open(port, browser))
}

/// Reads the arguments. `percentages` tells of each argument what it says as a percentage.
pub fn parse_command(args: &Vec<String>, percentages: &Vec<Percentage>) -> (parsed: Result<
    Command,
    String,
>)
    requires
        percentages@.len() == args@.len(),
    ensures
        is_command(parsed, command_of(text::views(args@), percentages@)),
{
    if args.len() == 0 {
        return Ok(Command::Help);
    }
    let name = args[0].as_str();
    assert(text::views(args@)[0] == name@);
    assert(args_from(args@, 1) == text::views(args@).skip(1));
    if same_text(name, "version") || same_text(name, "--version") || same_text(name, "-V") {
        Ok(Command::Version)
    } else if same_text(name, "run") {
        Ok(Command::Run)
    } else if same_text(name, "status") {
        Ok(Command::Status)
    } else if same_text(name, "history") {
        parse_history(args)
    } else if same_text(name, "windows") {
        Ok(Command::Windows)
    } else if same_text(name, "sync") {
        Ok(Command::Sync)
    } else if same_text(name, "estimate") {
        Ok(Command::Estimate)
    } else if same_text(name, "day") {
        parse_day(args)
    } else if same_text(name, "capacity") {
        Ok(Command::Capacity)
    } else if same_text(name, "reconcile") {
        parse_reconcile(args, percentages)
    } else if same_text(name, "diagnose") {
        Ok(Command::Diagnose)
    } else if same_text(name, "export") {
        Ok(Command::Export)
    } else if same_text(name, "serve") {
        parse_serve(args)
    } else if same_text(name, "open") {
        parse_open(args)
    } else if same_text(name, "close") {
        Ok(Command::Close)
    } else if same_text(name, "install") {
        Ok(Command::Install)
    } else if same_text(name, "uninstall") {
        Ok(Command::Uninstall)
    } else if same_text(name, "start") {
        Ok(Command::Start)
    } else if same_text(name, "stop") {
        Ok(Command::Stop)
    } else if same_text(name, "paths") {
        Ok(Command::Paths)
    } else if same_text(name, "help") || same_text(name, "--help") || same_text(name, "-h") {
        Ok(Command::Help)
    } else {
        Err(about("unknown command: ", name))
    }
}

/// Whatever is asked for stays within its bounds: a history of one to ten thousand entries, a server
/// that waits one second to two minutes, ports that are ports, and a dashboard that is opened on a
/// port of its own.
pub proof fn histories_stay_within_bounds(args: Seq<Seq<char>>, limit: int)
    requires
        1 <= limit <= 10_000,
    ensures
        history_of(args, limit) matches Ok(command) ==> (command matches CommandView::History(
            entries,
        ) && 1 <= entries <= 10_000),
    decreases args.len(),
{
    if args.len() > 0 {
        if args[0] != "--limit"@ {
            histories_stay_within_bounds(args.skip(1), limit);
        } else if args.len() > 1 {
            if let Some(number) = text::number_of_text(args[1], usize::MAX as nat) {
                histories_stay_within_bounds(
                    args.skip(2),
                    recorder::clamped(number as int, 1, 10_000),
                );
            }
        }
    }
}

/// A server listens on a port, and waits one second to two minutes for a query.
pub proof fn servers_stay_within_bounds(args: Seq<Seq<char>>, port: int, seconds: int)
    requires
        0 <= port <= u16::MAX,
        1 <= seconds <= 120,
    ensures
        serve_of(args, port, seconds) matches Ok(command) ==> (command matches CommandView::Serve(
            on,
            waits,
        ) && 0 <= on <= u16::MAX && 1 <= waits <= 120),
    decreases args.len(),
{
    if args.len() > 1 {
        if args[0] == "--port"@ {
            if let Some(number) = text::number_of_text(args[1], u16::MAX as nat) {
                servers_stay_within_bounds(args.skip(2), number as int, seconds);
            }
        } else if args[0] == "--query-timeout-seconds"@ {
            if let Some(number) = text::number_of_text(args[1], u64::MAX as nat) {
                servers_stay_within_bounds(
                    args.skip(2),
                    port,
                    recorder::clamped(number as int, 1, 120),
                );
            }
        }
    }
}

/// A dashboard is opened on a port of its own, never on one that the system would pick.
pub proof fn a_dashboard_has_a_port_of_its_own(args: Seq<Seq<char>>, port: int, browser: bool)
    requires
        0 <= port <= u16::MAX,
    ensures
        open_of(args, port, browser) matches Ok(command) ==> (command matches CommandView::Open(
            on,
            shows,
        ) && 0 < on <= u16::MAX && (shows ==> browser)),
    decreases args.len(),
{
    if args.len() > 0 {
        if args[0] == "--port"@ {
            if args.len() > 1 {
                if let Some(number) = text::number_of_text(args[1], u16::MAX as nat) {
                    a_dashboard_has_a_port_of_its_own(args.skip(2), number as int, browser);
                }
            }
        } else if args[0] == "--no-browser"@ {
            a_dashboard_has_a_port_of_its_own(args.skip(1), port, false);
        }
    }
}

/// An option says what it says wherever it stands last: a limit, a port or a date that is given counts
/// from then on, whatever was asked before.
pub proof fn a_given_option_counts(value: Seq<char>, number: nat, port: int, seconds: int)
    ensures
        1 <= number <= 10_000 && text::number_of_text(value, usize::MAX as nat) == Some(number)
            ==> history_of(seq!["--limit"@, value], port) == Ok::<CommandView, Seq<char>>(
            CommandView::History(number as int),
        ),
        text::number_of_text(value, u16::MAX as nat) == Some(number) ==> serve_of(
            seq!["--port"@, value],
            port,
            seconds,
        ) == Ok::<CommandView, Seq<char>>(CommandView::Serve(number as int, seconds)),
        number > 0 && text::number_of_text(value, u16::MAX as nat) == Some(number) ==> open_of(
            seq!["--port"@, value],
            port,
            true,
        ) == Ok::<CommandView, Seq<char>>(CommandView::Open(number as int, true)),
        day_of(seq!["--date"@, value, "--timezone"@, value], None, None) == Ok::<
            CommandView,
            Seq<char>,
        >(CommandView::Day(value, value)),
        history_of(Seq::empty(), port) == Ok::<CommandView, Seq<char>>(CommandView::History(port)),
{
    reveal_with_fuel(history_of, 3);
    reveal_with_fuel(serve_of, 3);
    reveal_with_fuel(open_of, 3);
    reveal_with_fuel(day_of, 4);
    reveal_strlit("--date");
    reveal_strlit("--timezone");
    assert("--date"@.len() == 6 && "--timezone"@.len() == 10);
    let limit = seq!["--limit"@, value];
    assert(limit.skip(2) =~= Seq::<Seq<char>>::empty());
    let on = seq!["--port"@, value];
    assert(on.skip(2) =~= Seq::<Seq<char>>::empty());
    let day = seq!["--date"@, value, "--timezone"@, value];
    assert(day.skip(2) =~= seq!["--timezone"@, value]);
    assert(day.skip(2).skip(2) =~= Seq::<Seq<char>>::empty());
}

/// A percentage counts where it is one from zero to a hundred; the last one that is given is the one
/// to compare with, and one that is no such number is refused.
pub proof fn a_given_percentage_counts(
    value: Seq<char>,
    first: Percentage,
    given: Percentage,
    before: Option<u64>,
)
    ensures
        ({
            let asked = reconcile_of(
                seq!["--web-used-percent"@, value],
                seq![first, given],
                before,
            );
            match given {
                Percentage::Valid(bits) => asked == Ok::<CommandView, Seq<char>>(
                    CommandView::Reconcile(Some(bits)),
                ),
                _ => asked is Err,
            }
        }),
        reconcile_of(Seq::empty(), Seq::empty(), before) == Ok::<CommandView, Seq<char>>(
            CommandView::Reconcile(before),
        ),
{
    reveal_with_fuel(reconcile_of, 3);
    let args = seq!["--web-used-percent"@, value];
    assert(args.skip(2) =~= Seq::<Seq<char>>::empty());
    assert(seq![first, given][1] == given);
}

/// An argument that an option does not know is never passed over in silence, but for a history.
pub proof fn unknown_options_are_refused(option: Seq<char>, rest: Seq<Seq<char>>)
    ensures
        option != "--port"@ && option != "--query-timeout-seconds"@ ==> serve_of(
            seq![option] + rest,
            1,
            1,
        ) is Err,
        option != "--port"@ && option != "--no-browser"@ ==> open_of(
            seq![option] + rest,
            1,
            true,
        ) is Err,
        option != "--date"@ && option != "--timezone"@ ==> day_of(
            seq![option] + rest,
            None,
            None,
        ) is Err,
        option != "--web-used-percent"@ ==> reconcile_of(
            seq![option] + rest,
            Seq::empty(),
            None,
        ) is Err,
        option != "--limit"@ ==> history_of(seq![option] + rest, 1) == history_of(rest, 1),
{
    let args = seq![option] + rest;
    assert(args[0] == option);
    assert(args.skip(1) =~= rest);
}

/// A word that takes no options asks for its own command, whatever stands behind it; words that ask
/// for nothing known are refused, and no word at all asks for help.
pub proof fn a_word_asks_for_its_own_command(
    args: Seq<Seq<char>>,
    percentages: Seq<Percentage>,
)
    ensures
        args.len() == 0 ==> command_of(args, percentages) == Ok::<CommandView, Seq<char>>(
            CommandView::Help,
        ),
        args.len() > 0 && args[0] == "version"@ ==> command_of(args, percentages) == Ok::<
            CommandView,
            Seq<char>,
        >(CommandView::Version),
        args.len() > 0 && args[0] == "--version"@ ==> command_of(args, percentages) == Ok::<
            CommandView,
            Seq<char>,
        >(CommandView::Version),
        args.len() > 0 && args[0] == "-V"@ ==> command_of(args, percentages) == Ok::<
            CommandView,
            Seq<char>,
        >(CommandView::Version),
        args.len() > 0 && args[0] == "run"@ ==> command_of(args, percentages) == Ok::<
            CommandView,
            Seq<char>,
        >(CommandView::Run),
        args.len() > 0 && args[0] == "status"@ ==> command_of(args, percentages) == Ok::<
            CommandView,
            Seq<char>,
        >(CommandView::Status),
        args.len() > 0 && args[0] == "windows"@ ==> command_of(args, percentages) == Ok::<
            CommandView,
            Seq<char>,
        >(CommandView::Windows),
        args.len() > 0 && args[0] == "sync"@ ==> command_of(args, percentages) == Ok::<
            CommandView,
            Seq<char>,
        >(CommandView::Sync),
        args.len() > 0 && args[0] == "estimate"@ ==> command_of(args, percentages) == Ok::<
            CommandView,
            Seq<char>,
        >(CommandView::Estimate),
        args.len() > 0 && args[0] == "capacity"@ ==> command_of(args, percentages) == Ok::<
            CommandView,
            Seq<char>,
        >(CommandView::Capacity),
        args.len() > 0 && args[0] == "diagnose"@ ==> command_of(args, percentages) == Ok::<
            CommandView,
            Seq<char>,
        >(CommandView::Diagnose),
        args.len() > 0 && args[0] == "export"@ ==> command_of(args, percentages) == Ok::<
            CommandView,
            Seq<char>,
        >(CommandView::Export),
        args.len() > 0 && args[0] == "close"@ ==> command_of(args, percentages) == Ok::<
            CommandView,
            Seq<char>,
        >(CommandView::Close),
        args.len() > 0 && args[0] == "install"@ ==> command_of(args, percentages) == Ok::<
            CommandView,
            Seq<char>,
        >(CommandView::Install),
        args.len() > 0 && args[0] == "uninstall"@ ==> command_of(args, percentages) == Ok::<
            CommandView,
            Seq<char>,
        >(CommandView::Uninstall),
        args.len() > 0 && args[0] == "start"@ ==> command_of(args, percentages) == Ok::<
            CommandView,
            Seq<char>,
        >(CommandView::Start),
        args.len() > 0 && args[0] == "stop"@ ==> command_of(args, percentages) == Ok::<
            CommandView,
            Seq<char>,
        >(CommandView::Stop),
        args.len() > 0 && args[0] == "paths"@ ==> command_of(args, percentages) == Ok::<
            CommandView,
            Seq<char>,
        >(CommandView::Paths),
        args.len() > 0 && args[0] == "help"@ ==> command_of(args, percentages) == Ok::<
            CommandView,
            Seq<char>,
        >(CommandView::Help),
        args.len() > 0 && args[0] == "--help"@ ==> command_of(args, percentages) == Ok::<
            CommandView,
            Seq<char>,
        >(CommandView::Help),
        args.len() > 0 && args[0] == "-h"@ ==> command_of(args, percentages) == Ok::<
            CommandView,
            Seq<char>,
        >(CommandView::Help),
        args.len() > 0 && command_of(args, percentages) == Ok::<CommandView, Seq<char>>(
            CommandView::Help,
        ) ==> args[0] == "help"@ || args[0] == "--help"@ || args[0] == "-h"@,
{
    reveal_strlit("version");
    reveal_strlit("--version");
    reveal_strlit("-V");
    reveal_strlit("run");
    reveal_strlit("status");
    reveal_strlit("history");
    reveal_strlit("windows");
    reveal_strlit("sync");
    reveal_strlit("estimate");
    reveal_strlit("day");
    reveal_strlit("capacity");
    reveal_strlit("reconcile");
    reveal_strlit("diagnose");
    reveal_strlit("export");
    reveal_strlit("serve");
    reveal_strlit("open");
    reveal_strlit("close");
    reveal_strlit("install");
    reveal_strlit("uninstall");
    reveal_strlit("start");
    reveal_strlit("stop");
    reveal_strlit("paths");
    reveal_strlit("help");
    reveal_strlit("--help");
    reveal_strlit("-h");
    assert("-V"@.len() == 2 && "-h"@.len() == 2);
    assert("-V"@[1] == 'V' && "-h"@[1] == 'h');
    assert("run"@.len() == 3 && "day"@.len() == 3);
    assert("run"@[0] == 'r' && "day"@[0] == 'd');
    assert("sync"@.len() == 4 && "open"@.len() == 4 && "stop"@.len() == 4 && "help"@.len() == 4);
    assert("sync"@[0] == 's' && "open"@[0] == 'o' && "stop"@[0] == 's' && "help"@[0] == 'h');
    assert("sync"@[1] == 'y' && "open"@[1] == 'p' && "stop"@[1] == 't' && "help"@[1] == 'e');
    assert("serve"@.len() == 5 && "close"@.len() == 5 && "start"@.len() == 5
        && "paths"@.len() == 5);
    assert("serve"@[0] == 's' && "close"@[0] == 'c' && "start"@[0] == 's' && "paths"@[0] == 'p');
    assert("serve"@[1] == 'e' && "close"@[1] == 'l' && "start"@[1] == 't' && "paths"@[1] == 'a');
    assert("status"@.len() == 6 && "export"@.len() == 6 && "--help"@.len() == 6);
    assert("status"@[0] == 's' && "export"@[0] == 'e' && "--help"@[0] == '-');
    assert("version"@.len() == 7 && "history"@.len() == 7 && "windows"@.len() == 7
        && "install"@.len() == 7);
    assert("version"@[0] == 'v' && "history"@[0] == 'h' && "windows"@[0] == 'w'
        && "install"@[0] == 'i');
    assert("estimate"@.len() == 8 && "capacity"@.len() == 8 && "diagnose"@.len() == 8);
    assert("estimate"@[0] == 'e' && "capacity"@[0] == 'c' && "diagnose"@[0] == 'd');
    assert("--version"@.len() == 9 && "reconcile"@.len() == 9 && "uninstall"@.len() == 9);
    assert("--version"@[0] == '-' && "reconcile"@[0] == 'r' && "uninstall"@[0] == 'u');
    if args.len() > 0 {
        options_ask_for_no_help(args, percentages);
    }
}

/// No options of a command make it a request for help.
proof fn options_ask_for_no_help(args: Seq<Seq<char>>, percentages: Seq<Percentage>)
    requires
        args.len() > 0,
    ensures
        forall|limit: int| #[trigger] history_of(args.skip(1), limit) != Ok::<CommandView, Seq<char>>(
            CommandView::Help,
        ),
        day_of(args.skip(1), None, None) != Ok::<CommandView, Seq<char>>(CommandView::Help),
        reconcile_of(args.skip(1), percentages.skip(1), None) != Ok::<CommandView, Seq<char>>(
            CommandView::Help,
        ),
        forall|port: int, seconds: int| #[trigger]
            serve_of(args.skip(1), port, seconds) != Ok::<CommandView, Seq<char>>(
                CommandView::Help,
            ),
        forall|port: int, browser: bool| #[trigger]
            open_of(args.skip(1), port, browser) != Ok::<CommandView, Seq<char>>(
                CommandView::Help,
            ),
{
    let rest = args.skip(1);
    assert forall|limit: int| #[trigger] history_of(rest, limit) != Ok::<CommandView, Seq<char>>(
        CommandView::Help,
    ) by {
        history_is_a_history(rest, limit);
    }
    day_is_a_day(rest, None, None);
    reconcile_is_a_reconciliation(rest, percentages.skip(1), None);
    assert forall|port: int, seconds: int| #[trigger]
        serve_of(rest, port, seconds) != Ok::<CommandView, Seq<char>>(CommandView::Help) by {
        serve_is_a_server(rest, port, seconds);
    }
    assert forall|port: int, browser: bool| #[trigger]
        open_of(rest, port, browser) != Ok::<CommandView, Seq<char>>(CommandView::Help) by {
        open_is_a_dashboard(rest, port, browser);
    }
}

/// The options of a history ask for a history.
pub proof fn history_is_a_history(args: Seq<Seq<char>>, limit: int)
    ensures
        history_of(args, limit) matches Ok(command) ==> command is History,
    decreases args.len(),
{
    if args.len() > 0 {
        if args[0] != "--limit"@ {
            history_is_a_history(args.skip(1), limit);
        } else if args.len() > 1 {
            if let Some(number) = text::number_of_text(args[1], usize::MAX as nat) {
                history_is_a_history(args.skip(2), recorder::clamped(number as int, 1, 10_000));
            }
        }
    }
}

/// The options of a day ask for a day.
pub proof fn day_is_a_day(
    args: Seq<Seq<char>>,
    date: Option<Seq<char>>,
    timezone: Option<Seq<char>>,
)
    ensures
        day_of(args, date, timezone) matches Ok(command) ==> command is Day,
    decreases args.len(),
{
    if args.len() > 0 {
        let (value, rest) = if args.len() > 1 {
            (Some(args[1]), args.skip(2))
        } else {
            (None, Seq::empty())
        };
        day_is_a_day(rest, value, timezone);
        day_is_a_day(rest, date, value);
    }
}

/// The options of a reconciliation ask for one.
pub proof fn reconcile_is_a_reconciliation(
    args: Seq<Seq<char>>,
    percentages: Seq<Percentage>,
    percent: Option<u64>,
)
    ensures
        reconcile_of(args, percentages, percent) matches Ok(command) ==> command is Reconcile,
    decreases args.len(),
{
    if args.len() > 1 {
        if let Percentage::Valid(bits) = percentages[1] {
            reconcile_is_a_reconciliation(args.skip(2), percentages.skip(2), Some(bits));
        }
    }
}

/// The options of a server ask for a server.
pub proof fn serve_is_a_server(args: Seq<Seq<char>>, port: int, seconds: int)
    ensures
        serve_of(args, port, seconds) matches Ok(command) ==> command is Serve,
    decreases args.len(),
{
    if args.len() > 1 {
        if let Some(number) = text::number_of_text(args[1], u16::MAX as nat) {
            serve_is_a_server(args.skip(2), number as int, seconds);
        }
        if let Some(number) = text::number_of_text(args[1], u64::MAX as nat) {
            serve_is_a_server(args.skip(2), port, recorder::clamped(number as int, 1, 120));
        }
    }
}

/// The options of a dashboard ask for one to be opened.
pub proof fn open_is_a_dashboard(args: Seq<Seq<char>>, port: int, browser: bool)
    ensures
        open_of(args, port, browser) matches Ok(command) ==> command is Open,
    decreases args.len(),
{
    if args.len() > 0 {
        open_is_a_dashboard(args.skip(1), port, false);
        if args.len() > 1 {
            if let Some(number) = text::number_of_text(args[1], u16::MAX as nat) {
                open_is_a_dashboard(args.skip(2), number as int, browser);
            }
        }
    }
}

} // verus!
