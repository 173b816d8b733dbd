//! The command line: its arguments, the commands of a chat, and what is shown.
use vstd::prelude::*;
use crate::json::json_text;
use crate::protocol::Event;
use crate::scan::{split_lines, text_lines, trim_heads, without_heads};
use crate::session_rpc::{SessionTurnStatus, SessionTurnSummary};
use crate::text::{
    a_blank_text_is_trimmed_away, a_number_within_its_limit_is_read, blank, concat2, concat3,
    concat4, concat5, debug_text, decimal, decimal_of, has_prefix, parse_unsigned, quoted,
    same_text, starts_with, trim, trimmed, unsigned_value, views,
};

verus! {

broadcast use vstd::string::group_string_axioms;

// ---------------------------------------------------------------------------
// Which command
// ---------------------------------------------------------------------------

#[derive(Debug, Clone, Copy, PartialEq, Eq, Structural)]
pub enum CliCommand {
    Chat,
    Resume,
    Fork,
    Timeline,
    Revert,
    Serve,
    Demo,
}

/// The command that the first argument names; anything else is the demonstration.
pub open spec fn command_named(args: Seq<Seq<char>>) -> CliCommand {
    if args.len() == 0 {
        CliCommand::Demo
    } else if args[0] == "chat"@ {
        CliCommand::Chat
    } else if args[0] == "resume"@ {
        CliCommand::Resume
    } else if args[0] == "fork"@ {
        CliCommand::Fork
    } else if args[0] == "timeline"@ {
        CliCommand::Timeline
    } else if args[0] == "revert"@ {
        CliCommand::Revert
    } else if args[0] == "serve"@ {
        CliCommand::Serve
    } else {
        CliCommand::Demo
    }
}

pub fn command_of(args: &Vec<String>) -> (r: CliCommand)
    ensures
        r == command_named(views(args@)),
{
    if args.len() == 0 {
        return CliCommand::Demo;
    }
    assert(views(args@)[0] == args@[0]@);
    let name = args[0].as_str();
    if same_text(name, "chat") {
        CliCommand::Chat
    } else if same_text(name, "resume") {
        CliCommand::Resume
    } else if same_text(name, "fork") {
        CliCommand::Fork
    } else if same_text(name, "timeline") {
        CliCommand::Timeline
    } else if same_text(name, "revert") {
        CliCommand::Revert
    } else if same_text(name, "serve") {
        CliCommand::Serve
    } else {
        CliCommand::Demo
    }
}

pub open spec fn missing_value(flag: Seq<char>) -> Seq<char> {
    flag + " 缺少取值"@
}

/// The number of flags in a list of arguments; each takes a value.
pub open spec fn flag_count(args: Seq<Seq<char>>) -> nat {
    ((args.len() + 1) / 2) as nat
}

// ---------------------------------------------------------------------------
// The arguments of a chat
// ---------------------------------------------------------------------------

#[derive(Debug, PartialEq, Eq)]
pub struct ChatArgs {
    pub session: String,
    pub base_url: String,
    pub model: String,
    /// The hosts that may be fetched from; none by default.
    pub fetch_allow: Vec<String>,
    /// The root of what the file tools may touch.
    pub workspace: String,
    /// The directory of plugins; none are loaded without it.
    pub plugin_root: Option<String>,
}

pub struct ChatView {
    pub session: Seq<char>,
    pub base_url: Seq<char>,
    pub model: Seq<char>,
    pub fetch_allow: Seq<Seq<char>>,
    pub workspace: Seq<char>,
    pub plugin_root: Option<Seq<char>>,
}

impl View for ChatArgs {
    type V = ChatView;

    open spec fn view(&self) -> ChatView {
        ChatView {
            session: self.session@,
            base_url: self.base_url@,
            model: self.model@,
            fetch_allow: views(self.fetch_allow@),
            workspace: self.workspace@,
            plugin_root: match self.plugin_root {
                Some(root) => Some(root@),
                None => None,
            },
        }
    }
}

pub open spec fn chat_usage(flag: Seq<char>) -> Seq<char> {
    "未知参数 "@ + flag
        + "；用法: ideal-harness chat [--session <path>] [--base-url <url>] [--model <name>] [--workspace <dir>] [--plugin-root <dir>] [--fetch-allow <host>]"@
}

/// The arguments with one more flag. An unknown flag is refused before its value is
/// looked at.
pub open spec fn chat_step(c: ChatView, flag: Seq<char>, value: Option<Seq<char>>) -> Result<
    ChatView,
    Seq<char>,
> {
    let known = flag == "--session"@ || flag == "--base-url"@ || flag == "--model"@ || flag
        == "--fetch-allow"@ || flag == "--workspace"@ || flag == "--plugin-root"@;
    if !known {
        Err(chat_usage(flag))
    } else {
        match value {
            None => Err(missing_value(flag)),
            Some(v) => Ok(
                if flag == "--session"@ {
                    ChatView { session: v, ..c }
                } else if flag == "--base-url"@ {
                    ChatView { base_url: v, ..c }
                } else if flag == "--model"@ {
                    ChatView { model: v, ..c }
                } else if flag == "--fetch-allow"@ {
                    ChatView { fetch_allow: c.fetch_allow.push(v), ..c }
                } else if flag == "--workspace"@ {
                    ChatView { workspace: v, ..c }
                } else {
                    ChatView { plugin_root: Some(v), ..c }
                },
            ),
        }
    }
}

/// The arguments after the first `n` flags.
pub open spec fn chat_after(args: Seq<Seq<char>>, n: nat, defaults: ChatView) -> Result<
    ChatView,
    Seq<char>,
>
    decreases n,
{
    if n == 0 {
        Ok(defaults)
    } else {
        match chat_after(args, (n - 1) as nat, defaults) {
            Err(e) => Err(e),
            Ok(c) => {
                let i = 2 * (n - 1);
                chat_step(
                    c,
                    args[i],
                    if i + 1 < args.len() {
                        Some(args[i + 1])
                    } else {
                        None
                    },
                )
            },
        }
    }
}

proof fn lemma_chat_error(args: Seq<Seq<char>>, k: nat, n: nat, defaults: ChatView)
    requires
        k <= n,
        chat_after(args, k, defaults) is Err,
    ensures
        chat_after(args, n, defaults) == chat_after(args, k, defaults),
    decreases n,
{
    if k < n {
        lemma_chat_error(args, k, (n - 1) as nat, defaults);
    }
}

impl ChatArgs {
    /// The arguments of a chat without flags, for a session file and a directory.
    pub fn defaults(session: String, workspace: String) -> (r: ChatArgs)
        ensures
            r@ == (ChatView {
                session: session@,
                base_url: "https://api.deepseek.com/v1"@,
                model: "deepseek-chat"@,
                fetch_allow: Seq::empty(),
                workspace: workspace@,
                plugin_root: None,
            }),
    {
        let fetch_allow: Vec<String> = Vec::new();
        assert(views(fetch_allow@) =~= Seq::empty());
        ChatArgs {
            session,
            base_url: "https://api.deepseek.com/v1".to_string(),
            model: "deepseek-chat".to_string(),
            fetch_allow,
            workspace,
            plugin_root: None,
        }
    }
}

fn chat_flag(out: ChatArgs, flag: &str, value: Option<&String>) -> (r: Result<ChatArgs, String>)
    ensures
        ({
            let expected = chat_step(
                out@,
                flag@,
                match value {
                    Some(v) => Some(v@),
                    None => None,
                },
            );
            match r {
                Ok(c) => expected == Ok::<ChatView, Seq<char>>(c@),
                Err(e) => expected == Err::<ChatView, Seq<char>>(e@),
            }
        }),
{
    let known = same_text(flag, "--session") || same_text(flag, "--base-url") || same_text(
        flag,
        "--model",
    ) || same_text(flag, "--fetch-allow") || same_text(flag, "--workspace") || same_text(
        flag,
        "--plugin-root",
    );
    if !known {
        return Err(
            concat3(
                "未知参数 ",
                flag,
                "；用法: ideal-harness chat [--session <path>] [--base-url <url>] [--model <name>] [--workspace <dir>] [--plugin-root <dir>] [--fetch-allow <host>]",
            ),
        );
    }
    let v = match value {
        Some(v) => v.clone(),
        None => {
            return Err(concat2(flag, " 缺少取值"));
        },
    };
    let mut c = out;
    let ghost before = c.fetch_allow@;
    if same_text(flag, "--session") {
        c.session = v;
    } else if same_text(flag, "--base-url") {
        c.base_url = v;
    } else if same_text(flag, "--model") {
        c.model = v;
    } else if same_text(flag, "--fetch-allow") {
        c.fetch_allow.push(v);
        assert(views(c.fetch_allow@) =~= views(before).push(v@));
    } else if same_text(flag, "--workspace") {
        c.workspace = v;
    } else {
        c.plugin_root = Some(v);
    }
    Ok(c)
}

/// Reads the arguments of a chat.
pub fn parse_chat_args(args: &Vec<String>, defaults: ChatArgs) -> (r: Result<ChatArgs, String>)
    ensures
        match r {
            Ok(c) => chat_after(views(args@), flag_count(views(args@)), defaults@) == Ok::<
                ChatView,
                Seq<char>,
            >(c@),
            Err(e) => chat_after(views(args@), flag_count(views(args@)), defaults@) == Err::<
                ChatView,
                Seq<char>,
            >(e@),
        },
{
    let ghost all = views(args@);
    let ghost total = flag_count(all);
    let ghost first = defaults@;
    let mut out = defaults;
    let mut i: usize = 0;
    let ghost mut n: nat = 0;
    while i < args.len()
        invariant
            i == 2 * n,
            n <= total,
            i <= args@.len() + 1,
            all == views(args@),
            total == flag_count(all),
            first == defaults@,
            chat_after(all, n, first) == Ok::<ChatView, Seq<char>>(out@),
        decreases args@.len() + 1 - i,
    {
        assert(all[i as int] == args@[i as int]@);
        let ghost next = n + 1;
        let last = args.len() - i < 2;
        let value = if last {
            None
        } else {
            assert(all[i + 1] == args@[i + 1]@);
            Some(&args[i + 1])
        };
        match chat_flag(out, &args[i], value) {
            Ok(c) => {
                out = c;
            },
            Err(e) => {
                proof {
                    lemma_chat_error(all, next, total, first);
                }
                return Err(e);
            },
        }
        assert(!last);
        i = i + 2;
        proof {
            n = next;
        }
    }
    assert(n == total);
    Ok(out)
}

/// Decides whether a session can be resumed. It must be named, and be there.
pub fn check_resume(args: &Vec<String>, defaults: ChatArgs) -> (r: Result<ChatArgs, String>)
    ensures
        ({
            let all = views(args@);
            if !all.contains("--session"@) {
                r is Err && r->Err_0@ == "resume 必须显式提供 --session <path>"@
            } else {
                match r {
                    Ok(c) => chat_after(all, flag_count(all), defaults@) == Ok::<
                        ChatView,
                        Seq<char>,
                    >(c@),
                    Err(e) => chat_after(all, flag_count(all), defaults@) == Err::<
                        ChatView,
                        Seq<char>,
                    >(e@),
                }
            }
        }),
{
    let ghost all = views(args@);
    let mut named = false;
    let mut i: usize = 0;
    while i < args.len()
        invariant
            i <= args@.len(),
            all == views(args@),
            named <==> exists|j: int| 0 <= j < i && #[trigger] all[j] == "--session"@,
        decreases args@.len() - i,
    {
        assert(all[i as int] == args@[i as int]@);
        if same_text(&args[i], "--session") {
            named = true;
        }
        i = i + 1;
    }
    if !named {
        return Err("resume 必须显式提供 --session <path>".to_string());
    }
    parse_chat_args(args, defaults)
}

/// Decides whether the session file of a resume is there.
pub fn check_resume_file(session: &str, is_file: bool) -> (r: Result<(), String>)
    ensures
        is_file ==> r is Ok,
        !is_file ==> r is Err && r->Err_0@ == "待恢复会话不存在："@ + session@,
{
    if is_file {
        Ok(())
    } else {
        Err(concat2("待恢复会话不存在：", session))
    }
}

/// The arguments with which a resumed session is chatted with.
pub fn chat_args(config: &ChatArgs) -> (r: Vec<String>)
    ensures
        views(r@) == seq![
            "--session"@,
            config@.session,
            "--base-url"@,
            config@.base_url,
            "--model"@,
            config@.model,
        ],
{
    let mut r: Vec<String> = Vec::new();
    r.push("--session".to_string());
    r.push(config.session.clone());
    r.push("--base-url".to_string());
    r.push(config.base_url.clone());
    r.push("--model".to_string());
    r.push(config.model.clone());
    assert(views(r@) =~= seq![
        "--session"@,
        config@.session,
        "--base-url"@,
        config@.base_url,
        "--model"@,
        config@.model,
    ]);
    r
}

// ---------------------------------------------------------------------------
// The arguments of the session commands
// ---------------------------------------------------------------------------

/// A flag of a session command.
#[derive(Debug, Clone, Copy, PartialEq, Eq, Structural)]
pub enum SessionFlag {
    Session,
    Target,
    Number,
    Limit,
}

/// What the session commands know of their flags: the name of the flag that takes a
/// number, and whether there are a target and a limit.
#[derive(Debug, Clone, Copy, PartialEq, Eq, Structural)]
pub enum SessionCommand {
    Fork,
    Timeline,
    Revert,
}

pub open spec fn flag_named(command: SessionCommand, flag: Seq<char>) -> Option<SessionFlag> {
    match command {
        SessionCommand::Fork => if flag == "--session"@ {
            Some(SessionFlag::Session)
        } else if flag == "--target"@ {
            Some(SessionFlag::Target)
        } else if flag == "--boundary"@ {
            Some(SessionFlag::Number)
        } else {
            None
        },
        SessionCommand::Timeline => if flag == "--session"@ {
            Some(SessionFlag::Session)
        } else if flag == "--cursor"@ {
            Some(SessionFlag::Number)
        } else if flag == "--limit"@ {
            Some(SessionFlag::Limit)
        } else {
            None
        },
        SessionCommand::Revert => if flag == "--session"@ {
            Some(SessionFlag::Session)
        } else if flag == "--target"@ {
            Some(SessionFlag::Target)
        } else if flag == "--turn"@ {
            Some(SessionFlag::Number)
        } else {
            None
        },
    }
}

pub open spec fn unknown_flag(command: SessionCommand, flag: Seq<char>) -> Seq<char> {
    match command {
        SessionCommand::Fork => "未知 fork 参数："@ + flag,
        SessionCommand::Timeline => "未知 timeline 参数："@ + flag,
        SessionCommand::Revert => "未知 revert 参数："@ + flag,
    }
}

pub open spec fn bad_number(command: SessionCommand) -> Seq<char> {
    match command {
        SessionCommand::Fork => "--boundary 必须是非负整数"@,
        SessionCommand::Timeline => "--cursor 必须是非负整数"@,
        SessionCommand::Revert => "--turn 必须是非负整数"@,
    }
}

/// The largest number that a command takes.
pub open spec fn number_max(command: SessionCommand) -> nat {
    match command {
        SessionCommand::Revert => u64::MAX as nat,
        _ => usize::MAX as nat,
    }
}

/// The flags of a session command that were read so far.
#[derive(Debug)]
pub struct SessionFlags {
    pub session: Option<String>,
    pub target: Option<String>,
    pub number: Option<u64>,
    pub limit: Option<u64>,
}

pub struct FlagsView {
    pub session: Option<Seq<char>>,
    pub target: Option<Seq<char>>,
    pub number: Option<u64>,
    pub limit: Option<u64>,
}

impl View for SessionFlags {
    type V = FlagsView;

    open spec fn view(&self) -> FlagsView {
        FlagsView {
            session: match self.session {
                Some(s) => Some(s@),
                None => None,
            },
            target: match self.target {
                Some(t) => Some(t@),
                None => None,
            },
            number: self.number,
            limit: self.limit,
        }
    }
}

/// The flags with one more; a missing value is noticed before an unknown flag.
pub open spec fn flags_step(
    command: SessionCommand,
    f: FlagsView,
    flag: Seq<char>,
    value: Option<Seq<char>>,
) -> Result<FlagsView, Seq<char>> {
    match value {
        None => Err(missing_value(flag)),
        Some(v) => match flag_named(command, flag) {
            None => Err(unknown_flag(command, flag)),
            Some(SessionFlag::Session) => Ok(FlagsView { session: Some(v), ..f }),
            Some(SessionFlag::Target) => Ok(FlagsView { target: Some(v), ..f }),
            Some(SessionFlag::Number) => match unsigned_value(v, number_max(command)) {
                Some(n) => Ok(FlagsView { number: Some(n as u64), ..f }),
                None => Err(bad_number(command)),
            },
            Some(SessionFlag::Limit) => match unsigned_value(v, usize::MAX as nat) {
                Some(n) => Ok(FlagsView { limit: Some(n as u64), ..f }),
                None => Err("--limit 必须是正整数"@),
            },
        },
    }
}

pub open spec fn no_flags() -> FlagsView {
    FlagsView { session: None, target: None, number: None, limit: None }
}

/// The flags after the first `n`.
pub open spec fn flags_after(command: SessionCommand, args: Seq<Seq<char>>, n: nat) -> Result<
    FlagsView,
    Seq<char>,
>
    decreases n,
{
    if n == 0 {
        Ok(no_flags())
    } else {
        match flags_after(command, args, (n - 1) as nat) {
            Err(e) => Err(e),
            Ok(f) => {
                let i = 2 * (n - 1);
                flags_step(
                    command,
                    f,
                    args[i],
                    if i + 1 < args.len() {
                        Some(args[i + 1])
                    } else {
                        None
                    },
                )
            },
        }
    }
}

/// All flags of a session command.
pub open spec fn flags_of(command: SessionCommand, args: Seq<Seq<char>>) -> Result<
    FlagsView,
    Seq<char>,
> {
    flags_after(command, args, flag_count(args))
}

proof fn lemma_flags_error(command: SessionCommand, args: Seq<Seq<char>>, k: nat, n: nat)
    requires
        k <= n,
        flags_after(command, args, k) is Err,
    ensures
        flags_after(command, args, n) == flags_after(command, args, k),
    decreases n,
{
    if k < n {
        lemma_flags_error(command, args, k, (n - 1) as nat);
    }
}

fn read_flag(command: SessionCommand, flag: &str) -> (r: Option<SessionFlag>)
    ensures
        r == flag_named(command, flag@),
{
    let session = same_text(flag, "--session");
    match command {
        SessionCommand::Fork => {
            if session {
                Some(SessionFlag::Session)
            } else if same_text(flag, "--target") {
                Some(SessionFlag::Target)
            } else if same_text(flag, "--boundary") {
                Some(SessionFlag::Number)
            } else {
                None
            }
        },
        SessionCommand::Timeline => {
            if session {
                Some(SessionFlag::Session)
            } else if same_text(flag, "--cursor") {
                Some(SessionFlag::Number)
            } else if same_text(flag, "--limit") {
                Some(SessionFlag::Limit)
            } else {
                None
            }
        },
        SessionCommand::Revert => {
            if session {
                Some(SessionFlag::Session)
            } else if same_text(flag, "--target") {
                Some(SessionFlag::Target)
            } else if same_text(flag, "--turn") {
                Some(SessionFlag::Number)
            } else {
                None
            }
        },
    }
}

fn session_flag(
    command: SessionCommand,
    flags: SessionFlags,
    flag: &str,
    value: &String,
) -> (r: Result<SessionFlags, String>)
    ensures
        ({
            let expected = flags_step(command, flags@, flag@, Some(value@));
            match r {
                Ok(f) => expected == Ok::<FlagsView, Seq<char>>(f@),
                Err(e) => expected == Err::<FlagsView, Seq<char>>(e@),
            }
        }),
{
    let mut f = flags;
    match read_flag(command, flag) {
        None => {
            return Err(
                match command {
                    SessionCommand::Fork => concat2("未知 fork 参数：", flag),
                    SessionCommand::Timeline => concat2("未知 timeline 参数：", flag),
                    SessionCommand::Revert => concat2("未知 revert 参数：", flag),
                },
            );
        },
        Some(SessionFlag::Session) => {
            f.session = Some(value.clone());
        },
        Some(SessionFlag::Target) => {
            f.target = Some(value.clone());
        },
        Some(SessionFlag::Number) => {
            let max: u64 = match command {
                SessionCommand::Revert => u64::MAX,
                _ => usize::MAX as u64,
            };
            match parse_unsigned(value, max) {
                Some(n) => {
                    f.number = Some(n);
                },
                None => {
                    return Err(
                        match command {
                            SessionCommand::Fork => "--boundary 必须是非负整数".to_string(),
                            SessionCommand::Timeline => "--cursor 必须是非负整数".to_string(),
                            SessionCommand::Revert => "--turn 必须是非负整数".to_string(),
                        },
                    );
                },
            }
        },
        Some(SessionFlag::Limit) => {
            match parse_unsigned(value, usize::MAX as u64) {
                Some(n) => {
                    f.limit = Some(n);
                },
                None => {
                    return Err("--limit 必须是正整数".to_string());
                },
            }
        },
    }
    Ok(f)
}

fn session_flags(command: SessionCommand, args: &Vec<String>) -> (r: Result<SessionFlags, String>)
    ensures
        match r {
            Ok(f) => {
                &&& flags_of(command, views(args@)) == Ok::<FlagsView, Seq<char>>(f@)
                &&& f.number matches Some(n) ==> n <= number_max(command)
                &&& f.limit matches Some(n) ==> n <= usize::MAX
            },
            Err(e) => flags_of(command, views(args@)) == Err::<FlagsView, Seq<char>>(e@),
        },
{
    let ghost all = views(args@);
    let ghost total = flag_count(all);
    let mut flags = SessionFlags { session: None, target: None, number: None, limit: None };
    let mut i: usize = 0;
    let ghost mut n: nat = 0;
    while i < args.len()
        invariant
            i == 2 * n,
            n <= total,
            i <= args@.len() + 1,
            all == views(args@),
            total == flag_count(all),
            flags_after(command, all, n) == Ok::<FlagsView, Seq<char>>(flags@),
            flags.number matches Some(k) ==> k <= number_max(command),
            flags.limit matches Some(k) ==> k <= usize::MAX,
        decreases args@.len() + 1 - i,
    {
        assert(all[i as int] == args@[i as int]@);
        let ghost next = n + 1;
        if args.len() - i < 2 {
            proof {
                lemma_flags_error(command, all, next, total);
            }
            return Err(concat2(&args[i], " 缺少取值"));
        }
        assert(all[i + 1] == args@[i + 1]@);
        match session_flag(command, flags, &args[i], &args[i + 1]) {
            Ok(f) => {
                flags = f;
            },
            Err(e) => {
                proof {
                    lemma_flags_error(command, all, next, total);
                }
                return Err(e);
            },
        }
        i = i + 2;
        proof {
            n = next;
        }
    }
    assert(n == total);
    Ok(flags)
}

#[derive(Debug, PartialEq, Eq)]
pub struct ForkArgs {
    pub source: String,
    pub target: String,
    pub boundary: Option<usize>,
}

/// Reads the arguments of a fork.
pub fn parse_fork_args(args: &Vec<String>) -> (r: Result<ForkArgs, String>)
    ensures
        match flags_of(SessionCommand::Fork, views(args@)) {
            Err(e) => r is Err && r->Err_0@ == e,
            Ok(f) => if f.session is None {
                r is Err && r->Err_0@ == "fork 缺少 --session <source>"@
            } else if f.target is None {
                r is Err && r->Err_0@ == "fork 缺少 --target <path>"@
            } else {
                &&& r matches Ok(a)
                &&& f.session == Some(a.source@)
                &&& f.target == Some(a.target@)
                &&& f.number is Some <==> a.boundary is Some
                &&& f.number matches Some(n) ==> a.boundary->0 == n
            },
        },
{
    let flags = match session_flags(SessionCommand::Fork, args) {
        Ok(flags) => flags,
        Err(e) => {
            return Err(e);
        },
    };
    let source = match flags.session {
        Some(source) => source,
        None => {
            return Err("fork 缺少 --session <source>".to_string());
        },
    };
    let target = match flags.target {
        Some(target) => target,
        None => {
            return Err("fork 缺少 --target <path>".to_string());
        },
    };
    let boundary = match flags.number {
        Some(n) => Some(n as usize),
        None => None,
    };
    Ok(ForkArgs { source, target, boundary })
}

#[derive(Debug, PartialEq, Eq)]
pub struct TimelineArgs {
    pub session: String,
    pub cursor: Option<usize>,
    pub limit: usize,
}

/// Reads the arguments of a timeline; the limit is 20 where none is given.
pub fn parse_timeline_args(args: &Vec<String>) -> (r: Result<TimelineArgs, String>)
    ensures
        match flags_of(SessionCommand::Timeline, views(args@)) {
            Err(e) => r is Err && r->Err_0@ == e,
            Ok(f) => if f.session is None {
                r is Err && r->Err_0@ == "timeline 缺少 --session <path>"@
            } else {
                &&& r matches Ok(a)
                &&& f.session == Some(a.session@)
                &&& f.number is Some <==> a.cursor is Some
                &&& f.number matches Some(n) ==> a.cursor->0 == n
                &&& a.limit == (if f.limit is Some {
                    f.limit->0
                } else {
                    20
                })
            },
        },
{
    let flags = match session_flags(SessionCommand::Timeline, args) {
        Ok(flags) => flags,
        Err(e) => {
            return Err(e);
        },
    };
    let session = match flags.session {
        Some(session) => session,
        None => {
            return Err("timeline 缺少 --session <path>".to_string());
        },
    };
    let cursor = match flags.number {
        Some(n) => Some(n as usize),
        None => None,
    };
    let limit: usize = match flags.limit {
        Some(n) => n as usize,
        None => 20,
    };
    Ok(TimelineArgs { session, cursor, limit })
}

#[derive(Debug, PartialEq, Eq)]
pub struct RevertArgs {
    pub source: String,
    pub target: String,
    pub turn_id: u64,
}

/// Reads the arguments of a revert.
pub fn parse_revert_args(args: &Vec<String>) -> (r: Result<RevertArgs, String>)
    ensures
        match flags_of(SessionCommand::Revert, views(args@)) {
            Err(e) => r is Err && r->Err_0@ == e,
            Ok(f) => if f.session is None {
                r is Err && r->Err_0@ == "revert 缺少 --session <source>"@
            } else if f.target is None {
                r is Err && r->Err_0@ == "revert 缺少 --target <path>"@
            } else if f.number is None {
                r is Err && r->Err_0@ == "revert 缺少 --turn <id>"@
            } else {
                &&& r matches Ok(a)
                &&& f.session == Some(a.source@)
                &&& f.target == Some(a.target@)
                &&& f.number == Some(a.turn_id)
            },
        },
{
    let flags = match session_flags(SessionCommand::Revert, args) {
        Ok(flags) => flags,
        Err(e) => {
            return Err(e);
        },
    };
    let source = match flags.session {
        Some(source) => source,
        None => {
            return Err("revert 缺少 --session <source>".to_string());
        },
    };
    let target = match flags.target {
        Some(target) => target,
        None => {
            return Err("revert 缺少 --target <path>".to_string());
        },
    };
    let turn_id: u64 = match flags.number {
        Some(n) => n,
        None => {
            return Err("revert 缺少 --turn <id>".to_string());
        },
    };
    Ok(RevertArgs { source, target, turn_id })
}

/// Decides on a fork before anything of the source is read.
pub fn check_fork_paths(args: &ForkArgs, source_is_file: bool, target_exists: bool) -> (r: Result<
    (),
    String,
>)
    ensures
        !source_is_file ==> r is Err && r->Err_0@ == "源会话不存在："@ + args.source@,
        source_is_file && target_exists ==> r is Err && r->Err_0@
            == "目标会话已存在，拒绝覆盖："@ + args.target@,
        source_is_file && !target_exists ==> r is Ok,
{
    if !source_is_file {
        return Err(concat2("源会话不存在：", &args.source));
    }
    if target_exists {
        return Err(concat2("目标会话已存在，拒绝覆盖：", &args.target));
    }
    Ok(())
}

/// The number of events that a fork takes over: all of them unless told otherwise,
/// and never more than there are.
pub fn fork_boundary(boundary: Option<usize>, event_count: usize) -> (r: Result<usize, String>)
    ensures
        ({
            let wanted = match boundary {
                Some(b) => b,
                None => event_count,
            };
            if wanted > event_count {
                r is Err && r->Err_0@ == "fork boundary "@ + decimal(wanted as nat)
                    + " 超出源事件数 "@ + decimal(event_count as nat)
            } else {
                r == Ok::<usize, String>(wanted)
            }
        }),
{
    let wanted: usize = match boundary {
        Some(b) => b,
        None => event_count,
    };
    if wanted > event_count {
        return Err(
            concat4(
                "fork boundary ",
                &decimal_of(wanted as u64),
                " 超出源事件数 ",
                &decimal_of(event_count as u64),
            ),
        );
    }
    Ok(wanted)
}

pub open spec fn status_label(status: SessionTurnStatus) -> Seq<char> {
    match status {
        SessionTurnStatus::Completed => "Completed"@,
        SessionTurnStatus::Aborted => "Aborted"@,
        SessionTurnStatus::Active => "Active"@,
    }
}

/// The line of a turn in a timeline.
pub fn timeline_line(turn: &SessionTurnSummary) -> (r: String)
    ensures
        r@ == "turn="@ + decimal(turn.turn_id as nat) + " status="@ + status_label(turn.status)
            + " seq="@ + decimal(turn.start_seq as nat) + ".."@ + match turn.end_seq {
            Some(seq) => decimal(seq as nat),
            None => "active"@,
        },
{
    let status = match turn.status {
        SessionTurnStatus::Completed => "Completed",
        SessionTurnStatus::Aborted => "Aborted",
        SessionTurnStatus::Active => "Active",
    };
    let end = match turn.end_seq {
        Some(seq) => decimal_of(seq),
        None => "active".to_string(),
    };
    let head = concat4("turn=", &decimal_of(turn.turn_id), " status=", status);
    concat5(&head, " seq=", &decimal_of(turn.start_seq), "..", &end)
}

// ---------------------------------------------------------------------------
// A chat
// ---------------------------------------------------------------------------

/// What a line of a chat asks for.
#[derive(Debug, PartialEq, Eq)]
pub enum ChatLine {
    Nothing,
    Exit,
    Tools,
    Steer(String),
    Say(String),
}

pub enum ChatLineView {
    Nothing,
    Exit,
    Tools,
    Steer(Seq<char>),
    Say(Seq<char>),
}

impl View for ChatLine {
    type V = ChatLineView;

    open spec fn view(&self) -> ChatLineView {
        match self {
            ChatLine::Nothing => ChatLineView::Nothing,
            ChatLine::Exit => ChatLineView::Exit,
            ChatLine::Tools => ChatLineView::Tools,
            ChatLine::Steer(text) => ChatLineView::Steer(text@),
            ChatLine::Say(text) => ChatLineView::Say(text@),
        }
    }
}

pub open spec fn chat_line_of(line: Seq<char>) -> ChatLineView {
    let text = trimmed(line);
    if text.len() == 0 {
        ChatLineView::Nothing
    } else if text == "/exit"@ || text == "/quit"@ {
        ChatLineView::Exit
    } else if text == "/tools"@ {
        ChatLineView::Tools
    } else if has_prefix(text, "/steer"@) {
        ChatLineView::Steer(trimmed(without_heads(text, "/steer"@)))
    } else {
        ChatLineView::Say(text)
    }
}

pub fn chat_line(line: &str) -> (r: ChatLine)
    ensures
        r@ == chat_line_of(line@),
{
    let text = trim(line);
    if text.as_str().is_empty() {
        ChatLine::Nothing
    } else if same_text(&text, "/exit") || same_text(&text, "/quit") {
        ChatLine::Exit
    } else if same_text(&text, "/tools") {
        ChatLine::Tools
    } else if starts_with(&text, "/steer") {
        ChatLine::Steer(trim(&trim_heads(&text, "/steer")))
    } else {
        ChatLine::Say(text)
    }
}

/// What is shown of an event; most are not shown.
pub open spec fn shown(e: Event) -> Option<Seq<char>> {
    match e {
        Event::ToolCallRequested { tool, args, .. } => Some(
            "  ⚙ 调用 "@ + tool@ + "("@ + json_text(args@) + ")"@,
        ),
        Event::AssistantMessage { text } => Some("assistant: "@ + text@),
        Event::TurnAborted { reason, .. } => Some("  ⚠ turn 中止："@ + reason@),
        _ => None,
    }
}

pub fn event_line(event: &Event) -> (r: Option<String>)
    ensures
        match r {
            Some(line) => shown(*event) == Some(line@),
            None => shown(*event) is None,
        },
{
    match event {
        Event::ToolCallRequested { tool, args, .. } => Some(
            concat5("  ⚙ 调用 ", tool, "(", &args.render(), ")"),
        ),
        Event::AssistantMessage { text } => Some(concat2("assistant: ", text)),
        Event::TurnAborted { reason, .. } => Some(concat2("  ⚠ turn 中止：", reason)),
        _ => None,
    }
}

// ---------------------------------------------------------------------------
// Comparing traces
// ---------------------------------------------------------------------------

/// A line as it is shown in a difference.
pub open spec fn shown_line(lines: Seq<Seq<char>>, i: int) -> Seq<char> {
    if i < lines.len() {
        "Some("@ + debug_text(lines[i]) + ")"@
    } else {
        "None"@
    }
}

/// Whether two texts agree in line `i`, where both may end before it.
pub open spec fn same_line(a: Seq<Seq<char>>, b: Seq<Seq<char>>, i: int) -> bool {
    if i < a.len() && i < b.len() {
        a[i] == b[i]
    } else {
        i >= a.len() && i >= b.len()
    }
}

fn show_line(lines: &Vec<String>, i: usize) -> (r: String)
    ensures
        r@ == shown_line(views(lines@), i as int),
{
    if i < lines.len() {
        assert(views(lines@)[i as int] == lines@[i as int]@);
        concat3("Some(", &quoted(&lines[i]), ")")
    } else {
        "None".to_string()
    }
}

/// Says where two texts differ first. Where all lines agree, they differ in how
/// their lines end.
pub fn first_difference(expected: &str, actual: &str) -> (r: String)
    ensures
        ({
            let a = text_lines(expected@);
            let b = text_lines(actual@);
            ||| (forall|i: int| 0 <= i ==> #[trigger] same_line(a, b, i)) && r@
                == "byte-level newline difference"@
            ||| exists|k: int|
                {
                    &&& 0 <= k
                    &&& !(#[trigger] same_line(a, b, k))
                    &&& forall|i: int| 0 <= i < k ==> #[trigger] same_line(a, b, i)
                    &&& r@ == "line "@ + decimal((k + 1) as nat) + ": expected "@ + shown_line(a, k)
                        + ", actual "@ + shown_line(b, k)
                }
        }),
{
    let x = split_lines(expected);
    let y = split_lines(actual);
    let ghost a = text_lines(expected@);
    let ghost b = text_lines(actual@);
    assert(views(x@).len() == x@.len() && views(y@).len() == y@.len());
    let limit: usize = if x.len() < y.len() {
        y.len()
    } else {
        x.len()
    };
    let mut i: usize = 0;
    while i < limit
        invariant
            i <= limit,
            a == views(x@),
            b == views(y@),
            a.len() == x@.len(),
            b.len() == y@.len(),
            limit == x@.len() || limit == y@.len(),
            forall|j: int| 0 <= j < i ==> #[trigger] same_line(a, b, j),
            a == text_lines(expected@),
            b == text_lines(actual@),
        decreases limit - i,
    {
        let same = if i < x.len() && i < y.len() {
            assert(a[i as int] == x@[i as int]@ && b[i as int] == y@[i as int]@);
            same_text(&x[i], &y[i])
        } else {
            i >= x.len() && i >= y.len()
        };
        if !same {
            assert(!same_line(a, b, i as int));
            let head = concat4(
                "line ",
                &decimal_of(i as u64 + 1),
                ": expected ",
                &show_line(&x, i),
            );
            return concat3(&head, ", actual ", &show_line(&y, i));
        }
        i = i + 1;
    }
    assert forall|j: int| 0 <= j implies #[trigger] same_line(a, b, j) by {
        if j >= limit {
            assert(j >= a.len() && j >= b.len());
        }
    }
    "byte-level newline difference".to_string()
}

/// Each command is called by its own name; without one, or with another, the demonstration
/// runs.
pub proof fn how_commands_are_called(rest: Seq<Seq<char>>, other: Seq<char>)
    ensures
        command_named(Seq::empty()) == CliCommand::Demo,
        command_named(seq!["chat"@] + rest) == CliCommand::Chat,
        command_named(seq!["resume"@] + rest) == CliCommand::Resume,
        command_named(seq!["fork"@] + rest) == CliCommand::Fork,
        command_named(seq!["timeline"@] + rest) == CliCommand::Timeline,
        command_named(seq!["revert"@] + rest) == CliCommand::Revert,
        command_named(seq!["serve"@] + rest) == CliCommand::Serve,
        other != "chat"@ && other != "resume"@ && other != "fork"@ && other != "timeline"@
            && other != "revert"@ && other != "serve"@
            ==> command_named(seq![other] + rest) == CliCommand::Demo,
{
    reveal_strlit("chat");
    reveal_strlit("resume");
    reveal_strlit("fork");
    reveal_strlit("timeline");
    reveal_strlit("revert");
    reveal_strlit("serve");
    assert("chat"@.len() == 4);
    assert("resume"@.len() == 6);
    assert("fork"@.len() == 4);
    assert("timeline"@.len() == 8);
    assert("revert"@.len() == 6);
    assert("serve"@.len() == 5);
    assert("chat"@[0] != "fork"@[0]);
    assert("resume"@[2] != "revert"@[2]);
    assert((seq!["chat"@] + rest)[0] == "chat"@);
    assert((seq!["resume"@] + rest)[0] == "resume"@);
    assert((seq!["fork"@] + rest)[0] == "fork"@);
    assert((seq!["timeline"@] + rest)[0] == "timeline"@);
    assert((seq!["revert"@] + rest)[0] == "revert"@);
    assert((seq!["serve"@] + rest)[0] == "serve"@);
    assert((seq![other] + rest)[0] == other);
}

/// Each flag of a chat sets its own part and leaves the others; a host is added to those that
/// are there.
pub proof fn what_the_flags_of_a_chat_set(c: ChatView, v: Seq<char>, other: Seq<char>)
    ensures
        chat_step(c, "--session"@, Some(v)) == Ok::<ChatView, Seq<char>>(
            ChatView { session: v, ..c },
        ),
        chat_step(c, "--base-url"@, Some(v)) == Ok::<ChatView, Seq<char>>(
            ChatView { base_url: v, ..c },
        ),
        chat_step(c, "--model"@, Some(v)) == Ok::<ChatView, Seq<char>>(ChatView { model: v, ..c }),
        chat_step(c, "--workspace"@, Some(v)) == Ok::<ChatView, Seq<char>>(
            ChatView { workspace: v, ..c },
        ),
        chat_step(c, "--plugin-root"@, Some(v)) == Ok::<ChatView, Seq<char>>(
            ChatView { plugin_root: Some(v), ..c },
        ),
        chat_step(c, "--fetch-allow"@, Some(v)) == Ok::<ChatView, Seq<char>>(
            ChatView { fetch_allow: c.fetch_allow.push(v), ..c },
        ),
        chat_step(c, other, None) is Err,
        other != "--session"@ && other != "--base-url"@ && other != "--model"@
            && other != "--fetch-allow"@ && other != "--workspace"@ && other != "--plugin-root"@
            ==> chat_step(c, other, Some(v)) is Err,
{
    reveal_strlit("--session");
    reveal_strlit("--base-url");
    reveal_strlit("--model");
    reveal_strlit("--fetch-allow");
    reveal_strlit("--workspace");
    reveal_strlit("--plugin-root");
    assert("--session"@.len() == 9);
    assert("--base-url"@.len() == 10);
    assert("--model"@.len() == 7);
    assert("--fetch-allow"@.len() == 13);
    assert("--workspace"@.len() == 11);
    assert("--plugin-root"@.len() == 13);
    assert("--fetch-allow"@[2] != "--plugin-root"@[2]);
}

/// The flags of a chat come in pairs and each one counts, the later over the earlier.
pub proof fn flags_of_a_chat_come_in_pairs(args: Seq<Seq<char>>, n: nat, c: ChatView)
    requires
        chat_after(args, n, c) is Ok,
        2 * n + 1 < args.len(),
    ensures
        chat_after(args, 0, c) == Ok::<ChatView, Seq<char>>(c),
        chat_after(args, n + 1, c) == chat_step(
            chat_after(args, n, c)->Ok_0,
            args[2 * n as int],
            Some(args[2 * n as int + 1]),
        ),
{
}

/// Each flag of a command on sessions sets its own part and leaves the others.
pub proof fn what_the_flags_of_a_session_set(
    f: FlagsView,
    v: Seq<char>,
    n: nat,
    command: SessionCommand,
    other: Seq<char>,
)
    requires
        n <= usize::MAX,
    ensures
        flags_step(command, f, "--session"@, Some(v)) == Ok::<FlagsView, Seq<char>>(
            FlagsView { session: Some(v), ..f },
        ),
        flags_step(SessionCommand::Fork, f, "--target"@, Some(v)) == Ok::<FlagsView, Seq<char>>(
            FlagsView { target: Some(v), ..f },
        ),
        flags_step(SessionCommand::Revert, f, "--target"@, Some(v)) == Ok::<FlagsView, Seq<char>>(
            FlagsView { target: Some(v), ..f },
        ),
        flags_step(SessionCommand::Timeline, f, "--target"@, Some(v)) is Err,
        flags_step(SessionCommand::Fork, f, "--boundary"@, Some(decimal(n))) == Ok::<
            FlagsView,
            Seq<char>,
        >(FlagsView { number: Some(n as u64), ..f }),
        flags_step(SessionCommand::Revert, f, "--turn"@, Some(decimal(n))) == Ok::<
            FlagsView,
            Seq<char>,
        >(FlagsView { number: Some(n as u64), ..f }),
        flags_step(SessionCommand::Timeline, f, "--cursor"@, Some(decimal(n))) == Ok::<
            FlagsView,
            Seq<char>,
        >(FlagsView { number: Some(n as u64), ..f }),
        flags_step(SessionCommand::Timeline, f, "--limit"@, Some(decimal(n))) == Ok::<
            FlagsView,
            Seq<char>,
        >(FlagsView { limit: Some(n as u64), ..f }),
        flags_step(command, f, other, None) is Err,
        other != "--session"@ && other != "--target"@ && other != "--boundary"@
            && other != "--cursor"@ && other != "--limit"@ && other != "--turn"@
            ==> flags_step(command, f, other, Some(v)) is Err,
{
    reveal_strlit("--session");
    reveal_strlit("--target");
    reveal_strlit("--boundary");
    reveal_strlit("--cursor");
    reveal_strlit("--limit");
    reveal_strlit("--turn");
    assert("--session"@.len() == 9);
    assert("--target"@.len() == 8);
    assert("--boundary"@.len() == 10);
    assert("--cursor"@.len() == 8);
    assert("--limit"@.len() == 7);
    assert("--turn"@.len() == 6);
    assert("--target"@[2] != "--cursor"@[2]);
    a_number_within_its_limit_is_read(n, usize::MAX as nat);
    a_number_within_its_limit_is_read(n, u64::MAX as nat);
}

/// The flags of a command on sessions come in pairs; without any nothing is set.
pub proof fn flags_of_a_session_come_in_pairs(
    command: SessionCommand,
    args: Seq<Seq<char>>,
    n: nat,
)
    requires
        flags_after(command, args, n) is Ok,
        2 * n + 1 < args.len(),
    ensures
        flags_after(command, args, 0) matches Ok(f) && f.session is None && f.target is None
            && f.number is None && f.limit is None,
        flags_after(command, args, n + 1) == flags_step(
            command,
            flags_after(command, args, n)->Ok_0,
            args[2 * n as int],
            Some(args[2 * n as int + 1]),
        ),
        args.len() % 2 == 0 ==> 2 * flag_count(args) == args.len(),
{
}

/// The label of a turn's status is its own, and no other's.
pub proof fn a_status_has_one_label(a: SessionTurnStatus, b: SessionTurnStatus)
    ensures
        status_label(SessionTurnStatus::Completed) == "Completed"@,
        status_label(SessionTurnStatus::Aborted) == "Aborted"@,
        status_label(SessionTurnStatus::Active) == "Active"@,
        status_label(a) == status_label(b) <==> a == b,
{
    reveal_strlit("Completed");
    reveal_strlit("Aborted");
    reveal_strlit("Active");
    assert("Completed"@.len() == 9);
    assert("Aborted"@.len() == 7);
    assert("Active"@.len() == 6);
}

/// What a line of a chat asks for, whatever white stands around it.
pub proof fn what_a_line_asks_for(line: Seq<char>)
    ensures
        blank(line) <==> chat_line_of(line) is Nothing,
        trimmed(line) == "/exit"@ || trimmed(line) == "/quit"@ <==> chat_line_of(line) is Exit,
        trimmed(line) == "/tools"@ <==> chat_line_of(line) is Tools,
        chat_line_of(line) matches ChatLineView::Say(text) ==> text == trimmed(line) && text.len()
            > 0,
        chat_line_of(line) matches ChatLineView::Steer(text) ==> has_prefix(
            trimmed(line),
            "/steer"@,
        ),
        has_prefix(trimmed(line), "/steer"@) ==> chat_line_of(line) is Steer,
{
    reveal_strlit("/exit");
    reveal_strlit("/quit");
    reveal_strlit("/tools");
    reveal_strlit("/steer");
    assert("/exit"@.len() == 5);
    assert("/quit"@.len() == 5);
    assert("/tools"@.len() == 6);
    assert("/steer"@.len() == 6);
    assert("/exit"@[1] != "/quit"@[1]);
    assert("/tools"@[1] != "/steer"@[1]);
    a_blank_text_is_trimmed_away(line);
    let text = trimmed(line);
    if has_prefix(text, "/steer"@) {
        assert(text.subrange(0, 6) == "/steer"@);
        assert(text.subrange(0, 6)[1] == text[1]);
        assert("/steer"@[1] == 's' && "/exit"@[1] == 'e' && "/quit"@[1] == 'q' && "/tools"@[1]
            == 't');
    }
}

/// What is shown of an event: a call with its tool and arguments, what the model said, and why
/// a turn was aborted.
pub proof fn what_is_shown_of_an_event(e: Event)
    ensures
        e is AssistantMessage ==> shown(e) == Some("assistant: "@ + e->AssistantMessage_text@),
        e is ToolCallRequested ==> shown(e) == Some(
            "  ⚙ 调用 "@ + e->ToolCallRequested_tool@ + "("@ + json_text(e->args@) + ")"@,
        ),
        e is TurnAborted ==> shown(e) == Some("  ⚠ turn 中止："@ + e->TurnAborted_reason@),
        shown(e) is Some ==> e is AssistantMessage || e is ToolCallRequested || e is TurnAborted,
{
}

/// Two lines are the same where both texts have them and they are equal, or where neither has
/// one; a line that is there is shown in quotes.
pub proof fn when_lines_are_the_same(a: Seq<Seq<char>>, b: Seq<Seq<char>>, i: int)
    requires
        0 <= i,
    ensures
        i < a.len() && i < b.len() ==> (same_line(a, b, i) <==> a[i] == b[i]),
        i < a.len() && i >= b.len() ==> !same_line(a, b, i),
        i >= a.len() && i < b.len() ==> !same_line(a, b, i),
        i >= a.len() && i >= b.len() ==> same_line(a, b, i),
        i < a.len() ==> shown_line(a, i) == "Some("@ + debug_text(a[i]) + ")"@,
        i >= a.len() ==> shown_line(a, i) == "None"@,
{
}

/// The flags of a command on sessions with one pair are what that pair sets.
pub proof fn what_one_flag_sets(command: SessionCommand, flag: Seq<char>, value: Seq<char>)
    ensures
        flags_of(command, seq![flag, value]) == flags_step(
            command,
            FlagsView { session: None, target: None, number: None, limit: None },
            flag,
            Some(value),
        ),
        flags_of(command, seq![flag]) is Err,
        flags_of(command, Seq::empty()) matches Ok(f) && f.session is None && f.target is None,
{
    reveal_with_fuel(flags_after, 2);
    let args = seq![flag, value];
    assert(args[0] == flag && args[1] == value);
    assert(flag_count(args) == 1);
    assert(flag_count(seq![flag]) == 1);
}

} // verus!
