//! Dockerfile parsing: logical lines, instructions, and grouping of multi-stage builds.
use crate::text::{
    ascii_upper, blank_range, chars_of, clone_range, concat, eq_ignore_case, find_char, find_whitespace,
    find_ws, first_ws_at, has_char, is_blank, is_ws, join, join_strings, lemma_find_some_iff_has,
    lemma_trim_end_empty, lemma_trim_idempotent, lemma_trim_len, lines, lower, opt_view,
    range_starts_with, ranges_view, split_once, starts_with, str_eq, str_eq_ignore_case, string_of,
    string_of_case, strs_view, trim, trim_bounds, trim_end, trim_end_bound, trim_start, upper,
    word_ranges, words,
};
use crate::{Error, ErrorV, Result};
use std::sync::Arc;
use vstd::prelude::*;

verus! {

// ---------------------------------------------------------------------------
// Types and their views
// ---------------------------------------------------------------------------

/// A parsed Dockerfile: its top-level instructions.
#[derive(Debug, PartialEq, Eq)]
pub struct Dockerfile {
    pub instructions: Vec<Instruction>,
}

#[derive(Debug, PartialEq, Eq)]
pub enum Instruction {
    From(FromInstruction),
    Run(ShellOrExec),
    Cmd(ShellOrExec),
    Label(Vec<KeyValue>),
    Maintainer(String),
    Expose(Vec<Port>),
    Env(Vec<KeyValue>),
    Add(CopyInstruction),
    Copy(CopyInstruction),
    Entrypoint(ShellOrExec),
    Volume(Vec<String>),
    User(String),
    Workdir(String),
    Arg { name: String, default: Option<String> },
    Onbuild(Box<Instruction>),
    Stopsignal(String),
    Healthcheck(Healthcheck),
    Shell(Vec<String>),
    ParserDirective { key: String, value: String },
    Comment(String),
    Stage { from: FromInstruction, dockerfile: Arc<Dockerfile> },
    Unknown { keyword: String, value: String },
}

#[derive(Clone, Debug, PartialEq, Eq)]
pub struct FromInstruction {
    pub image: String,
    pub platform: Option<String>,
    pub alias: Option<String>,
}

#[derive(Clone, Debug, PartialEq, Eq)]
pub enum ShellOrExec {
    Shell(String),
    Exec(Vec<String>),
}

#[derive(Clone, Debug, PartialEq, Eq)]
pub struct KeyValue {
    pub key: String,
    pub value: String,
}

#[derive(Clone, Debug, PartialEq, Eq)]
pub struct Port {
    pub port: String,
    pub protocol: Option<String>,
}

#[derive(Clone, Debug, PartialEq, Eq)]
pub struct CopyInstruction {
    pub flags: Vec<String>,
    pub from: Option<String>,
    pub sources: Vec<String>,
    pub destination: String,
}

#[derive(Clone, Debug, PartialEq, Eq)]
pub enum Healthcheck {
    Disabled,
    Command { options: Vec<String>, command: ShellOrExec },
}

pub struct FromV {
    pub image: Seq<char>,
    pub platform: Option<Seq<char>>,
    pub alias: Option<Seq<char>>,
}

pub enum ShellOrExecV {
    Shell(Seq<char>),
    Exec(Seq<Seq<char>>),
}

pub struct KeyValueV {
    pub key: Seq<char>,
    pub value: Seq<char>,
}

pub struct PortV {
    pub port: Seq<char>,
    pub protocol: Option<Seq<char>>,
}

pub struct CopyV {
    pub flags: Seq<Seq<char>>,
    pub from: Option<Seq<char>>,
    pub sources: Seq<Seq<char>>,
    pub destination: Seq<char>,
}

pub enum HealthcheckV {
    Disabled,
    Command { options: Seq<Seq<char>>, command: ShellOrExecV },
}

pub enum InstructionV {
    From(FromV),
    Run(ShellOrExecV),
    Cmd(ShellOrExecV),
    Label(Seq<KeyValueV>),
    Maintainer(Seq<char>),
    Expose(Seq<PortV>),
    Env(Seq<KeyValueV>),
    Add(CopyV),
    Copy(CopyV),
    Entrypoint(ShellOrExecV),
    Volume(Seq<Seq<char>>),
    User(Seq<char>),
    Workdir(Seq<char>),
    Arg { name: Seq<char>, default: Option<Seq<char>> },
    Onbuild(Box<InstructionV>),
    Stopsignal(Seq<char>),
    Healthcheck(HealthcheckV),
    Shell(Seq<Seq<char>>),
    ParserDirective { key: Seq<char>, value: Seq<char> },
    Comment(Seq<char>),
    Stage { from: FromV, body: Seq<InstructionV> },
    Unknown { keyword: Seq<char>, value: Seq<char> },
}

impl View for FromInstruction {
    type V = FromV;

    open spec fn view(&self) -> FromV {
        FromV { image: self.image@, platform: opt_view(self.platform), alias: opt_view(self.alias) }
    }
}

impl View for ShellOrExec {
    type V = ShellOrExecV;

    open spec fn view(&self) -> ShellOrExecV {
        match self {
            ShellOrExec::Shell(s) => ShellOrExecV::Shell(s@),
            ShellOrExec::Exec(parts) => ShellOrExecV::Exec(strs_view(parts@)),
        }
    }
}

impl View for KeyValue {
    type V = KeyValueV;

    open spec fn view(&self) -> KeyValueV {
        KeyValueV { key: self.key@, value: self.value@ }
    }
}

impl View for Port {
    type V = PortV;

    open spec fn view(&self) -> PortV {
        PortV { port: self.port@, protocol: opt_view(self.protocol) }
    }
}

impl View for CopyInstruction {
    type V = CopyV;

    open spec fn view(&self) -> CopyV {
        CopyV {
            flags: strs_view(self.flags@),
            from: opt_view(self.from),
            sources: strs_view(self.sources@),
            destination: self.destination@,
        }
    }
}

impl View for Healthcheck {
    type V = HealthcheckV;

    open spec fn view(&self) -> HealthcheckV {
        match self {
            Healthcheck::Disabled => HealthcheckV::Disabled,
            Healthcheck::Command { options, command } => HealthcheckV::Command {
                options: strs_view(options@),
                command: command@,
            },
        }
    }
}

pub open spec fn kvs_view(v: Seq<KeyValue>) -> Seq<KeyValueV> {
    v.map_values(|kv: KeyValue| kv@)
}

pub open spec fn ports_view(v: Seq<Port>) -> Seq<PortV> {
    v.map_values(|p: Port| p@)
}

/// The view of an instruction.
pub open spec fn instr_view(i: Instruction) -> InstructionV
    decreases i,
{
    match i {
        Instruction::From(f) => InstructionV::From(f@),
        Instruction::Run(c) => InstructionV::Run(c@),
        Instruction::Cmd(c) => InstructionV::Cmd(c@),
        Instruction::Label(kvs) => InstructionV::Label(kvs_view(kvs@)),
        Instruction::Maintainer(s) => InstructionV::Maintainer(s@),
        Instruction::Expose(ps) => InstructionV::Expose(ports_view(ps@)),
        Instruction::Env(kvs) => InstructionV::Env(kvs_view(kvs@)),
        Instruction::Add(c) => InstructionV::Add(c@),
        Instruction::Copy(c) => InstructionV::Copy(c@),
        Instruction::Entrypoint(c) => InstructionV::Entrypoint(c@),
        Instruction::Volume(v) => InstructionV::Volume(strs_view(v@)),
        Instruction::User(s) => InstructionV::User(s@),
        Instruction::Workdir(s) => InstructionV::Workdir(s@),
        Instruction::Arg { name, default } => InstructionV::Arg {
            name: name@,
            default: opt_view(default),
        },
        Instruction::Onbuild(b) => InstructionV::Onbuild(Box::new(instr_view(*b))),
        Instruction::Stopsignal(s) => InstructionV::Stopsignal(s@),
        Instruction::Healthcheck(h) => InstructionV::Healthcheck(h@),
        Instruction::Shell(v) => InstructionV::Shell(strs_view(v@)),
        Instruction::ParserDirective { key, value } => InstructionV::ParserDirective {
            key: key@,
            value: value@,
        },
        Instruction::Comment(s) => InstructionV::Comment(s@),
        Instruction::Stage { from, dockerfile } => InstructionV::Stage {
            from: from@,
            body: instrs_view(dockerfile.instructions@),
        },
        Instruction::Unknown { keyword, value } => InstructionV::Unknown {
            keyword: keyword@,
            value: value@,
        },
    }
}

/// The views of a sequence of instructions.
pub open spec fn instrs_view(s: Seq<Instruction>) -> Seq<InstructionV>
    decreases s,
{
    if s.len() == 0 {
        Seq::empty()
    } else {
        seq![instr_view(s[0])] + instrs_view(s.drop_first())
    }
}

impl View for Instruction {
    type V = InstructionV;

    open spec fn view(&self) -> InstructionV {
        instr_view(*self)
    }
}

impl View for Dockerfile {
    type V = Seq<InstructionV>;

    open spec fn view(&self) -> Seq<InstructionV> {
        instrs_view(self.instructions@)
    }
}

/// `instrs_view` maps each instruction to its view.
pub proof fn lemma_instrs_view(s: Seq<Instruction>)
    ensures
        instrs_view(s) == s.map_values(|i: Instruction| instr_view(i)),
    decreases s.len(),
{
    if s.len() > 0 {
        lemma_instrs_view(s.drop_first());
        assert(instrs_view(s) =~= s.map_values(|i: Instruction| instr_view(i)));
    } else {
        assert(instrs_view(s) =~= s.map_values(|i: Instruction| instr_view(i)));
    }
}

// ---------------------------------------------------------------------------
// Outside calls
// ---------------------------------------------------------------------------

/// What `shell_words::split` returns for a text: its words, or the text of its error.
pub uninterp spec fn shell_split_result(s: Seq<char>) -> core::result::Result<
    Seq<Seq<char>>,
    Seq<char>,
>;

/// What `serde_json::from_str::<Vec<String>>` returns for a text: the strings of a JSON
/// array of strings, or the text of its error.
pub uninterp spec fn json_strings_result(s: Seq<char>) -> core::result::Result<
    Seq<Seq<char>>,
    Seq<char>,
>;

/// Calls `shell_words::split`, POSIX-shell word splitting. Its result is the name
/// `shell_split_result` of the text; the crate's only error displays as
/// "missing closing quote".
#[verifier::external_body]
fn shell_split(s: &str) -> (r: core::result::Result<Vec<String>, String>)
    ensures
        match r {
            Ok(words) => shell_split_result(s@) == Ok::<Seq<Seq<char>>, Seq<char>>(
                strs_view(words@),
            ),
            Err(m) => shell_split_result(s@) == Err::<Seq<Seq<char>>, Seq<char>>(m@) && m@
                == "missing closing quote"@,
        },
{
    match shell_words::split(s) {
        Ok(words) => Ok(words),
        Err(e) => Err(e.to_string()),
    }
}

/// Calls `serde_json::from_str::<Vec<String>>`. Its result is the name
/// `json_strings_result` of the text; an error is carried as its displayed text.
#[verifier::external_body]
fn json_strings(s: &str) -> (r: core::result::Result<Vec<String>, String>)
    ensures
        match r {
            Ok(v) => json_strings_result(s@) == Ok::<Seq<Seq<char>>, Seq<char>>(strs_view(v@)),
            Err(m) => json_strings_result(s@) == Err::<Seq<Seq<char>>, Seq<char>>(m@),
        },
{
    match serde_json::from_str::<Vec<String>>(s) {
        Ok(v) => Ok(v),
        Err(e) => Err(e.to_string()),
    }
}

// ---------------------------------------------------------------------------
// Specification of the grammar
// ---------------------------------------------------------------------------

pub open spec fn dp(m: Seq<char>) -> ErrorV {
    ErrorV::DockerfileParse(m)
}

/// `parse_json_array`: a JSON array of strings.
pub open spec fn json_array_spec(value: Seq<char>) -> core::result::Result<Seq<Seq<char>>, ErrorV> {
    match json_strings_result(value) {
        Ok(a) => Ok(a),
        Err(m) => Err(dp(m)),
    }
}

/// `ShellOrExec::parse`: exec form when the trimmed text starts with `[`, else shell form.
pub open spec fn shell_or_exec_spec(value: Seq<char>) -> core::result::Result<ShellOrExecV, ErrorV> {
    let t = trim(value);
    if t.len() > 0 && t[0] == '[' {
        match json_array_spec(t) {
            Ok(a) => Ok(ShellOrExecV::Exec(a)),
            Err(e) => Err(e),
        }
    } else {
        Ok(ShellOrExecV::Shell(t))
    }
}

/// Number of leading `--platform=` words.
pub open spec fn leading_platforms(fields: Seq<Seq<char>>) -> nat
    decreases fields.len(),
{
    if fields.len() > 0 && starts_with(fields[0], "--platform="@) {
        1 + leading_platforms(fields.drop_first())
    } else {
        0
    }
}

/// `FROM` from its words: `[--platform=P]... IMAGE [AS ALIAS]`; the last platform wins.
pub open spec fn from_fields_spec(fields: Seq<Seq<char>>) -> core::result::Result<FromV, ErrorV> {
    let n = leading_platforms(fields) as int;
    let platform = if n > 0 {
        Some(fields[n - 1].skip("--platform="@.len() as int))
    } else {
        None
    };
    if n >= fields.len() {
        Err(dp("FROM requires an image"@))
    } else if n + 1 < fields.len() && !eq_ignore_case(fields[n + 1], "AS"@) {
        Err(dp("expected AS in FROM, got "@ + fields[n + 1]))
    } else {
        Ok(
            FromV {
                image: fields[n],
                platform,
                alias: if n + 2 < fields.len() {
                    Some(fields[n + 2])
                } else {
                    None
                },
            },
        )
    }
}

pub open spec fn from_spec(value: Seq<char>) -> core::result::Result<FromV, ErrorV> {
    match shell_split_result(value) {
        Err(m) => Err(dp("invalid FROM: "@ + m)),
        Ok(fields) => from_fields_spec(fields),
    }
}

/// A `KEY=VALUE` word split at its first `=`.
pub open spec fn kv_of(field: Seq<char>) -> KeyValueV {
    match split_once(field, '=') {
        Some((k, v)) => KeyValueV { key: k, value: v },
        None => KeyValueV { key: field, value: Seq::empty() },
    }
}

/// `LABEL`/`ENV` from its words: all `KEY=VALUE`, or `KEY VALUE...`.
pub open spec fn key_values_fields_spec(fields: Seq<Seq<char>>, value: Seq<char>) -> core::result::Result<
    Seq<KeyValueV>,
    ErrorV,
> {
    if fields.len() == 0 {
        Ok(Seq::empty())
    } else if forall|i: int| 0 <= i < fields.len() ==> has_char(#[trigger] fields[i], '=') {
        Ok(fields.map_values(|f: Seq<char>| kv_of(f)))
    } else if fields.len() >= 2 {
        Ok(seq![KeyValueV { key: fields[0], value: join(fields.drop_first(), " "@) }])
    } else {
        Err(dp("expected KEY=VALUE or KEY VALUE, got "@ + value))
    }
}

pub open spec fn key_values_spec(value: Seq<char>) -> core::result::Result<Seq<KeyValueV>, ErrorV> {
    match shell_split_result(value) {
        Err(m) => Err(dp("invalid key/value list: "@ + m)),
        Ok(fields) => key_values_fields_spec(fields, value),
    }
}

/// A port word `PORT[/PROTOCOL]`.
pub open spec fn port_of(w: Seq<char>) -> PortV {
    match split_once(w, '/') {
        Some((p, proto)) => PortV { port: p, protocol: Some(proto) },
        None => PortV { port: w, protocol: None },
    }
}

/// `EXPOSE`: one port per whitespace-separated word.
pub open spec fn ports_spec(value: Seq<char>) -> Seq<PortV> {
    words(value).map_values(|w: Seq<char>| port_of(w))
}

/// Number of leading words that start with `--`.
pub open spec fn leading_flags(fields: Seq<Seq<char>>) -> nat
    decreases fields.len(),
{
    if fields.len() > 0 && starts_with(fields[0], "--"@) {
        1 + leading_flags(fields.drop_first())
    } else {
        0
    }
}

/// The value of the last `--from=` flag.
pub open spec fn last_from(flags: Seq<Seq<char>>) -> Option<Seq<char>>
    decreases flags.len(),
{
    if flags.len() == 0 {
        None
    } else if starts_with(flags.last(), "--from="@) {
        Some(flags.last().skip("--from="@.len() as int))
    } else {
        last_from(flags.drop_last())
    }
}

/// `COPY`/`ADD` from its words: leading flags, then sources, then the destination.
pub open spec fn copy_fields_spec(fields: Seq<Seq<char>>) -> core::result::Result<CopyV, ErrorV> {
    let n = leading_flags(fields) as int;
    let paths = fields.skip(n);
    if paths.len() < 2 {
        Err(dp("COPY/ADD requires at least one source and a destination"@))
    } else {
        Ok(
            CopyV {
                flags: fields.take(n),
                from: last_from(fields.take(n)),
                sources: paths.drop_last(),
                destination: paths.last(),
            },
        )
    }
}

pub open spec fn copy_spec(value: Seq<char>) -> core::result::Result<CopyV, ErrorV> {
    match shell_split_result(value) {
        Err(m) => Err(dp("invalid copy instruction: "@ + m)),
        Ok(fields) => copy_fields_spec(fields),
    }
}

/// `i` is the first word that is `CMD` in any case.
pub open spec fn first_cmd_at(fields: Seq<Seq<char>>, i: int) -> bool {
    &&& 0 <= i < fields.len()
    &&& eq_ignore_case(fields[i], "CMD"@)
    &&& forall|j: int| 0 <= j < i ==> !eq_ignore_case(#[trigger] fields[j], "CMD"@)
}

/// `HEALTHCHECK` from its words: options, `CMD`, then the command.
pub open spec fn healthcheck_fields_spec(fields: Seq<Seq<char>>) -> core::result::Result<
    HealthcheckV,
    ErrorV,
> {
    if exists|i: int| first_cmd_at(fields, i) {
        let i = choose|i: int| first_cmd_at(fields, i);
        match shell_or_exec_spec(join(fields.skip(i + 1), " "@)) {
            Ok(c) => Ok(HealthcheckV::Command { options: fields.take(i), command: c }),
            Err(e) => Err(e),
        }
    } else {
        Err(dp("HEALTHCHECK requires CMD or NONE"@))
    }
}

pub open spec fn healthcheck_spec(value: Seq<char>) -> core::result::Result<HealthcheckV, ErrorV> {
    let t = trim(value);
    if eq_ignore_case(t, "NONE"@) {
        Ok(HealthcheckV::Disabled)
    } else {
        match shell_split_result(t) {
            Err(m) => Err(dp("invalid healthcheck: "@ + m)),
            Ok(fields) => healthcheck_fields_spec(fields),
        }
    }
}

/// `VOLUME`: a JSON array, or shell words.
pub open spec fn string_list_spec(value: Seq<char>) -> core::result::Result<Seq<Seq<char>>, ErrorV> {
    let t = trim(value);
    if t.len() > 0 && t[0] == '[' {
        json_array_spec(t)
    } else {
        match shell_split_result(t) {
            Err(m) => Err(dp("invalid string list: "@ + m)),
            Ok(f) => Ok(f),
        }
    }
}

/// The instruction for an upper-cased keyword other than `ONBUILD` and its (trimmed) body.
pub open spec fn keyword_spec(kw: Seq<char>, value: Seq<char>) -> core::result::Result<
    InstructionV,
    ErrorV,
> {
    if kw == "FROM"@ {
        match from_spec(value) {
            Ok(f) => Ok(InstructionV::From(f)),
            Err(e) => Err(e),
        }
    } else if kw == "RUN"@ {
        match shell_or_exec_spec(value) {
            Ok(c) => Ok(InstructionV::Run(c)),
            Err(e) => Err(e),
        }
    } else if kw == "CMD"@ {
        match shell_or_exec_spec(value) {
            Ok(c) => Ok(InstructionV::Cmd(c)),
            Err(e) => Err(e),
        }
    } else if kw == "LABEL"@ {
        match key_values_spec(value) {
            Ok(kvs) => Ok(InstructionV::Label(kvs)),
            Err(e) => Err(e),
        }
    } else if kw == "MAINTAINER"@ {
        Ok(InstructionV::Maintainer(trim(value)))
    } else if kw == "EXPOSE"@ {
        Ok(InstructionV::Expose(ports_spec(value)))
    } else if kw == "ENV"@ {
        match key_values_spec(value) {
            Ok(kvs) => Ok(InstructionV::Env(kvs)),
            Err(e) => Err(e),
        }
    } else if kw == "ADD"@ {
        match copy_spec(value) {
            Ok(c) => Ok(InstructionV::Add(c)),
            Err(e) => Err(e),
        }
    } else if kw == "COPY"@ {
        match copy_spec(value) {
            Ok(c) => Ok(InstructionV::Copy(c)),
            Err(e) => Err(e),
        }
    } else if kw == "ENTRYPOINT"@ {
        match shell_or_exec_spec(value) {
            Ok(c) => Ok(InstructionV::Entrypoint(c)),
            Err(e) => Err(e),
        }
    } else if kw == "VOLUME"@ {
        match string_list_spec(value) {
            Ok(v) => Ok(InstructionV::Volume(v)),
            Err(e) => Err(e),
        }
    } else if kw == "USER"@ {
        Ok(InstructionV::User(trim(value)))
    } else if kw == "WORKDIR"@ {
        Ok(InstructionV::Workdir(trim(value)))
    } else if kw == "ARG"@ {
        match split_once(value, '=') {
            Some((name, default)) => Ok(
                InstructionV::Arg { name: trim(name), default: Some(trim(default)) },
            ),
            None => Ok(InstructionV::Arg { name: trim(value), default: None }),
        }
    } else if kw == "STOPSIGNAL"@ {
        Ok(InstructionV::Stopsignal(trim(value)))
    } else if kw == "HEALTHCHECK"@ {
        match healthcheck_spec(value) {
            Ok(h) => Ok(InstructionV::Healthcheck(h)),
            Err(e) => Err(e),
        }
    } else if kw == "SHELL"@ {
        match json_array_spec(value) {
            Ok(v) => Ok(InstructionV::Shell(v)),
            Err(e) => Err(e),
        }
    } else {
        Ok(InstructionV::Unknown { keyword: kw, value: trim(value) })
    }
}

/// `Instruction::parse` of one logical line.
pub open spec fn instruction_spec(line: Seq<char>) -> core::result::Result<InstructionV, ErrorV>
    decreases line.len(),
{
    let t = trim(line);
    if t.len() > 0 && t[0] == '#' {
        let comment = t.drop_first();
        match split_once(comment, '=') {
            Some((k, v)) => Ok(InstructionV::ParserDirective { key: lower(trim(k)), value: trim(v) }),
            None => Ok(InstructionV::Comment(trim(comment))),
        }
    } else {
        match find_ws(t) {
            None => Err(dp("instruction has no body: "@ + t)),
            Some(i) => {
                let kw = upper(t.take(i));
                let value = trim(t.skip(i + 1));
                if kw == "ONBUILD"@ {
                    if 0 <= i < t.len() {
                        proof {
                            lemma_trim_len(line);
                            lemma_trim_len(t.skip(i + 1));
                        }
                        match instruction_spec(value) {
                            Ok(x) => Ok(InstructionV::Onbuild(Box::new(x))),
                            Err(e) => Err(e),
                        }
                    } else {
                        Err(dp(t))
                    }
                } else {
                    keyword_spec(kw, value)
                }
            }
        }
    }
}

/// Physical lines joined at trailing backslashes, each logical line trimmed.
pub open spec fn logical_from(ls: Seq<Seq<char>>, cur: Seq<char>) -> Seq<Seq<char>>
    decreases ls.len(),
{
    if ls.len() == 0 {
        if trim(cur).len() > 0 {
            seq![trim(cur)]
        } else {
            Seq::empty()
        }
    } else {
        let t = trim_end(ls[0]);
        if t.len() > 0 && t.last() == '\\' {
            logical_from(ls.drop_first(), cur + t.drop_last() + seq![' '])
        } else {
            seq![trim(cur + t)] + logical_from(ls.drop_first(), Seq::empty())
        }
    }
}

pub open spec fn logical_lines_spec(input: Seq<char>) -> Seq<Seq<char>> {
    logical_from(lines(input), Seq::empty())
}

/// The instructions of the non-blank logical lines; the first failing line's error.
pub open spec fn instructions_spec(ls: Seq<Seq<char>>) -> core::result::Result<
    Seq<InstructionV>,
    ErrorV,
>
    decreases ls.len(),
{
    if ls.len() == 0 {
        Ok(Seq::empty())
    } else if is_blank(ls[0]) {
        instructions_spec(ls.drop_first())
    } else {
        match instruction_spec(ls[0]) {
            Err(e) => Err(e),
            Ok(i) => match instructions_spec(ls.drop_first()) {
                Err(e) => Err(e),
                Ok(rest) => Ok(seq![i] + rest),
            },
        }
    }
}

/// Every line that `logical_from` yields is trimmed.
proof fn lemma_logical_from_trimmed(ls: Seq<Seq<char>>, cur: Seq<char>)
    ensures
        forall|i: int|
            0 <= i < logical_from(ls, cur).len() ==> trim(#[trigger] logical_from(ls, cur)[i])
                == logical_from(ls, cur)[i],
    decreases ls.len(),
{
    if ls.len() == 0 {
        lemma_trim_idempotent(cur);
        let r = logical_from(ls, cur);
        if trim(cur).len() > 0 {
            assert(r == seq![trim(cur)]);
        } else {
            assert(r.len() == 0);
        }
    } else {
        let t = trim_end(ls[0]);
        if t.len() > 0 && t.last() == '\\' {
            lemma_logical_from_trimmed(ls.drop_first(), cur + t.drop_last() + seq![' ']);
            assert(logical_from(ls, cur) == logical_from(ls.drop_first(), cur + t.drop_last() + seq![' ']));
        } else {
            let rest = logical_from(ls.drop_first(), Seq::empty());
            lemma_logical_from_trimmed(ls.drop_first(), Seq::empty());
            lemma_trim_idempotent(cur + t);
            let r = logical_from(ls, cur);
            assert(r == seq![trim(cur + t)] + rest);
            assert forall|i: int| 0 <= i < r.len() implies trim(#[trigger] r[i]) == r[i] by {
                if i == 0 {
                    assert(r[0] == trim(cur + t));
                } else {
                    assert(r[i] == rest[i - 1]);
                }
            }
        }
    }
}

/// Logical lines come out trimmed: trimming one again leaves it as it is.
pub proof fn law_logical_lines_are_trimmed(input: Seq<char>)
    ensures
        forall|i: int|
            0 <= i < logical_lines_spec(input).len() ==> trim(#[trigger] logical_lines_spec(input)[i])
                == logical_lines_spec(input)[i],
{
    lemma_logical_from_trimmed(lines(input), Seq::empty());
}

/// Two physical lines, the second not blank and not itself continued: when the first ends in
/// a backslash (before any trailing whitespace) they form one logical line, the first without
/// its backslash, a space, then the second; otherwise, if the first is not blank, each is a
/// logical line of its own.
pub proof fn law_line_continuation(a: Seq<char>, b: Seq<char>)
    requires
        forall|i: int| 0 <= i < a.len() ==> #[trigger] a[i] != '\n',
        forall|i: int| 0 <= i < b.len() ==> #[trigger] b[i] != '\n',
        trim_end(b).len() > 0,
        trim_end(b).last() != '\\',
    ensures
        trim_end(a).len() > 0 && trim_end(a).last() == '\\' ==> logical_lines_spec(a + "\n"@ + b)
            == seq![trim(trim_end(a).drop_last() + " "@ + trim_end(b))],
        trim_end(a).len() > 0 && trim_end(a).last() != '\\' ==> logical_lines_spec(a + "\n"@ + b)
            == seq![trim(a), trim(b)],
{
    reveal_strlit("\n");
    reveal_strlit(" ");
    let s = a + "\n"@ + b;
    let n = a.len() as int;
    assert(crate::text::first_at(s, '\n', n)) by {
        assert forall|j: int| 0 <= j < n implies s[j] != '\n' by {
            assert(s[j] == a[j]);
        }
    }
    crate::text::lemma_find(s, '\n', n);
    assert(s.take(n) =~= a);
    assert(s.skip(n + 1) =~= b);
    lemma_trim_end_empty(b);
    assert(!exists|i: int| crate::text::first_at(b, '\n', i));
    assert(lines(b) == seq![b]);
    let ca = crate::text::strip_cr(a);
    assert(lines(s) == seq![ca] + seq![b]);
    let ls = seq![ca, b];
    assert(lines(s) =~= ls);
    assert(trim_end(ca) == trim_end(a)) by {
        if a.len() > 0 && a.last() == '\r' {
            assert(is_ws(a.last()));
        }
    }
    let tb = trim_end(b);
    assert(ls.drop_first() =~= seq![b]);
    assert(seq![b].drop_first() =~= Seq::<Seq<char>>::empty());
    let ta = trim_end(a);
    if ta.len() > 0 && ta.last() == '\\' {
        let cur = Seq::<char>::empty() + ta.drop_last() + seq![' '];
        assert(cur =~= ta.drop_last() + " "@);
        assert(logical_from(ls, Seq::empty()) == logical_from(seq![b], cur));
        assert(logical_from(Seq::<Seq<char>>::empty(), Seq::empty()) =~= Seq::<Seq<char>>::empty());
        assert(logical_from(seq![b], cur) =~= seq![trim(cur + tb)]);
    } else if ta.len() > 0 {
        lemma_trim_end_empty(a);
        crate::text::lemma_trim_of_trim_end(a);
        crate::text::lemma_trim_of_trim_end(b);
        assert(Seq::<char>::empty() + ta =~= ta);
        assert(Seq::<char>::empty() + tb =~= tb);
        assert(logical_from(Seq::<Seq<char>>::empty(), Seq::empty()) =~= Seq::<Seq<char>>::empty());
        assert(logical_from(seq![b], Seq::empty()) =~= seq![trim(b)]);
        assert(logical_from(ls, Seq::empty()) =~= seq![trim(a), trim(b)]);
    }
}

/// Upper-casing keeps a character whitespace or not, and is idempotent.
proof fn lemma_ascii_upper(c: char)
    ensures
        is_ws(ascii_upper(c)) == is_ws(c),
        ascii_upper(ascii_upper(c)) == ascii_upper(c),
        (ascii_upper(c) == '#') == (c == '#'),
{
}

/// Text with a non-whitespace character keeps its first character when its end is trimmed,
/// and trimming the end of `a + b` trims only `b` then.
proof fn lemma_trim_end_concat(a: Seq<char>, b: Seq<char>, j: int)
    requires
        0 <= j < b.len(),
        !is_ws(b[j]),
    ensures
        trim_end(a + b) == a + trim_end(b),
        trim_end(b).len() > j,
    decreases b.len(),
{
    if is_ws(b.last()) {
        assert((a + b).drop_last() =~= a + b.drop_last());
        assert(b.drop_last()[j] == b[j]);
        lemma_trim_end_concat(a, b.drop_last(), j);
    } else {
        assert((a + b).last() == b.last());
    }
}

/// The first whitespace of `k + r`, where `k` has none and `r` starts with one, is at the
/// end of `k`.
proof fn lemma_find_ws_after(k: Seq<char>, r: Seq<char>)
    requires
        forall|i: int| 0 <= i < k.len() ==> !is_ws(#[trigger] k[i]),
        r.len() > 0,
        is_ws(r[0]),
    ensures
        find_ws(k + r) == Some(k.len() as int),
{
    let t = k + r;
    assert(first_ws_at(t, k.len() as int));
    let c = choose|i: int| first_ws_at(t, i);
    assert(first_ws_at(t, c));
    if c < k.len() {
        assert(t[c] == k[c]);
    } else if c > k.len() {
        assert(is_ws(t[k.len() as int]));
    }
}

/// An instruction's keyword is read without regard to case: a line parses the same with its
/// keyword upper-cased. (The keyword has no whitespace and does not start a comment; the body
/// that follows it is not blank.)
pub proof fn law_keyword_case_insensitive(kw: Seq<char>, rest: Seq<char>)
    requires
        kw.len() > 0,
        kw[0] != '#',
        forall|i: int| 0 <= i < kw.len() ==> !is_ws(#[trigger] kw[i]),
        rest.len() > 0,
        is_ws(rest[0]),
        exists|j: int| 0 <= j < rest.len() && !is_ws(#[trigger] rest[j]),
    ensures
        instruction_spec(kw + rest) == instruction_spec(upper(kw) + rest),
{
    let ukw = upper(kw);
    let j = choose|j: int| 0 <= j < rest.len() && !is_ws(#[trigger] rest[j]);
    assert forall|i: int| 0 <= i < ukw.len() implies !is_ws(#[trigger] ukw[i]) by {
        lemma_ascii_upper(kw[i]);
    }
    lemma_ascii_upper(kw[0]);
    let l1 = kw + rest;
    let l2 = ukw + rest;
    assert(!is_ws(l1[0]) && !is_ws(l2[0]));
    assert(trim_start(l1) == l1);
    assert(trim_start(l2) == l2);
    lemma_trim_end_concat(kw, rest, j);
    lemma_trim_end_concat(ukw, rest, j);
    let re = trim_end(rest);
    let t1 = kw + re;
    let t2 = ukw + re;
    assert(trim(l1) == t1);
    assert(trim(l2) == t2);
    lemma_trim_end_empty(rest);
    assert(re[0] == rest[0]);
    lemma_find_ws_after(kw, re);
    lemma_find_ws_after(ukw, re);
    let n = kw.len() as int;
    assert(t1.take(n) =~= kw);
    assert(t2.take(n) =~= ukw);
    assert(upper(ukw) =~= ukw) by {
        assert forall|i: int| 0 <= i < kw.len() implies upper(ukw)[i] == ukw[i] by {
            lemma_ascii_upper(kw[i]);
        }
    }
    assert(t1.skip(n + 1) =~= t2.skip(n + 1));
    assert(t1[0] != '#');
    assert(t2[0] != '#');
}

/// A line made of an upper-case keyword other than `ONBUILD`, a space and a body that is
/// not blank is the keyword's instruction for the trimmed body.
proof fn lemma_keyword_line(kw: Seq<char>, b: Seq<char>)
    requires
        kw.len() > 0,
        forall|i: int| 0 <= i < kw.len() ==> 'A' <= #[trigger] kw[i] <= 'Z',
        kw != "ONBUILD"@,
        exists|j: int| 0 <= j < b.len() && !is_ws(#[trigger] b[j]),
    ensures
        instruction_spec(kw + seq![' '] + b) == keyword_spec(kw, trim(b)),
{
    assert(upper(kw) =~= kw);
    assert forall|i: int| 0 <= i < kw.len() implies !is_ws(#[trigger] kw[i]) by {
        assert('A' <= kw[i] <= 'Z');
    }
    let j = choose|j: int| 0 <= j < b.len() && !is_ws(#[trigger] b[j]);
    let sp = seq![' '];
    let rest = sp + b;
    let line = kw + sp + b;
    assert(line =~= kw + rest);
    assert(rest[j + 1] == b[j]);
    lemma_trim_end_concat(kw, rest, j + 1);
    lemma_trim_end_concat(sp, b, j);
    let re = sp + trim_end(b);
    assert(trim_start(line) == line);
    assert(trim(line) == kw + re);
    let t = kw + re;
    lemma_find_ws_after(kw, re);
    let n = kw.len() as int;
    assert(t.take(n) =~= kw);
    assert(t.skip(n + 1) =~= trim_end(b));
    crate::text::lemma_trim_of_trim_end(b);
    assert(t[0] != '#');
}

/// Trimming the end of `a + c`, where `a` ends in a character that is not whitespace, trims
/// only `c`.
proof fn lemma_trim_end_after(a: Seq<char>, c: Seq<char>)
    requires
        a.len() > 0,
        !is_ws(a.last()),
    ensures
        trim_end(a + c) == a + trim_end(c),
    decreases c.len(),
{
    if c.len() == 0 {
        assert(a + c =~= a);
    } else if is_ws(c.last()) {
        assert((a + c).drop_last() =~= a + c.drop_last());
        lemma_trim_end_after(a, c.drop_last());
    } else {
        assert((a + c).last() == c.last());
    }
}

/// A `#` line is a comment, or a parser directive when it holds `=`: `# k=v` gives the
/// directive with key `k` (trimmed and lower-cased) and value `v` (trimmed), and a line
/// without `=` gives the comment's trimmed text.
pub proof fn law_comment_lines(c: Seq<char>, k: Seq<char>, v: Seq<char>)
    requires
        forall|i: int| 0 <= i < k.len() ==> #[trigger] k[i] != '=',
    ensures
        (forall|i: int| 0 <= i < c.len() ==> #[trigger] c[i] != '=') ==> instruction_spec(
            "#"@ + c,
        ) == Ok::<InstructionV, ErrorV>(InstructionV::Comment(trim(c))),
        instruction_spec("#"@ + k + "="@ + v) == Ok::<InstructionV, ErrorV>(
            InstructionV::ParserDirective { key: lower(trim(k)), value: trim(v) },
        ),
{
    reveal_strlit("#");
    reveal_strlit("=");
    let h = seq!['#'];
    assert("#"@ =~= h);
    assert(trim_start(h + c) == h + c);
    lemma_trim_end_after(h, c);
    let t = h + trim_end(c);
    assert(trim(h + c) == t);
    assert(t.drop_first() =~= trim_end(c));
    crate::text::lemma_trim_of_trim_end(c);
    if forall|i: int| 0 <= i < c.len() ==> #[trigger] c[i] != '=' {
        lemma_trim_end_empty(c);
        let e = trim_end(c);
        assert forall|i: int| 0 <= i < e.len() implies #[trigger] e[i] != '=' by {
            assert(e[i] == c[i]);
        }
        assert(!exists|i: int| crate::text::first_at(e, '=', i));
    }
    let d = k + "="@ + v;
    let kh = k + seq!['='];
    assert(d =~= kh + v);
    assert("#"@ + k + "="@ + v =~= h + d);
    assert(trim_start(h + d) == h + d);
    lemma_trim_end_after(h, d);
    lemma_trim_end_after(kh, v);
    let e = kh + trim_end(v);
    assert(trim(h + d) == h + e);
    assert((h + e).drop_first() =~= e);
    let n = k.len() as int;
    assert(crate::text::first_at(e, '=', n));
    crate::text::lemma_find(e, '=', n);
    assert(e.take(n) =~= k);
    assert(e.skip(n + 1) =~= trim_end(v));
    crate::text::lemma_trim_of_trim_end(v);
}

/// The lengths and first letters of the keywords, which tell them apart.
proof fn lemma_keyword_names()
    ensures
        "FROM"@.len() == 4 && "FROM"@[0] == 'F',
        "RUN"@.len() == 3 && "RUN"@[0] == 'R',
        "CMD"@.len() == 3 && "CMD"@[0] == 'C',
        "LABEL"@.len() == 5 && "LABEL"@[0] == 'L',
        "MAINTAINER"@.len() == 10 && "MAINTAINER"@[0] == 'M',
        "EXPOSE"@.len() == 6 && "EXPOSE"@[0] == 'E',
        "ENV"@.len() == 3 && "ENV"@[0] == 'E',
        "ADD"@.len() == 3 && "ADD"@[0] == 'A',
        "COPY"@.len() == 4 && "COPY"@[0] == 'C',
        "ENTRYPOINT"@.len() == 10 && "ENTRYPOINT"@[0] == 'E',
        "VOLUME"@.len() == 6 && "VOLUME"@[0] == 'V',
        "USER"@.len() == 4 && "USER"@[0] == 'U',
        "WORKDIR"@.len() == 7 && "WORKDIR"@[0] == 'W',
        "ARG"@.len() == 3 && "ARG"@[0] == 'A',
        "STOPSIGNAL"@.len() == 10 && "STOPSIGNAL"@[0] == 'S',
        "HEALTHCHECK"@.len() == 11 && "HEALTHCHECK"@[0] == 'H',
        "SHELL"@.len() == 5 && "SHELL"@[0] == 'S',
        "ONBUILD"@.len() == 7 && "ONBUILD"@[0] == 'O',
        "ARG"@[1] == 'R' && "ADD"@[1] == 'D',
{
    reveal_strlit("FROM");
    reveal_strlit("RUN");
    reveal_strlit("CMD");
    reveal_strlit("LABEL");
    reveal_strlit("MAINTAINER");
    reveal_strlit("EXPOSE");
    reveal_strlit("ENV");
    reveal_strlit("ADD");
    reveal_strlit("COPY");
    reveal_strlit("ENTRYPOINT");
    reveal_strlit("VOLUME");
    reveal_strlit("USER");
    reveal_strlit("WORKDIR");
    reveal_strlit("ARG");
    reveal_strlit("STOPSIGNAL");
    reveal_strlit("HEALTHCHECK");
    reveal_strlit("SHELL");
    reveal_strlit("ONBUILD");
}

/// A line that starts with a keyword, a space and a body that is not blank parses to that
/// keyword's instruction, built from the trimmed body: `USER` gives the user, `WORKDIR` the
/// working directory, `RUN`, `CMD` and `ENTRYPOINT` each their own command, and so on.
#[verifier::rlimit(40)]
pub proof fn law_keyword_instructions(b: Seq<char>)
    requires
        exists|j: int| 0 <= j < b.len() && !is_ws(#[trigger] b[j]),
    ensures
        instruction_spec("USER "@ + b) == Ok::<InstructionV, ErrorV>(InstructionV::User(trim(b))),
        instruction_spec("WORKDIR "@ + b) == Ok::<InstructionV, ErrorV>(InstructionV::Workdir(trim(b))),
        instruction_spec("MAINTAINER "@ + b) == Ok::<InstructionV, ErrorV>(InstructionV::Maintainer(trim(b))),
        instruction_spec("STOPSIGNAL "@ + b) == Ok::<InstructionV, ErrorV>(InstructionV::Stopsignal(trim(b))),
        instruction_spec("EXPOSE "@ + b) == Ok::<InstructionV, ErrorV>(InstructionV::Expose(ports_spec(trim(b)))),
        instruction_spec("RUN "@ + b) == (match shell_or_exec_spec(trim(b)) {
            Ok(c) => Ok(InstructionV::Run(c)),
            Err(e) => Err(e),
        }),
        instruction_spec("CMD "@ + b) == (match shell_or_exec_spec(trim(b)) {
            Ok(c) => Ok(InstructionV::Cmd(c)),
            Err(e) => Err(e),
        }),
        instruction_spec("ENTRYPOINT "@ + b) == (match shell_or_exec_spec(trim(b)) {
            Ok(c) => Ok(InstructionV::Entrypoint(c)),
            Err(e) => Err(e),
        }),
{
    lemma_keyword_names();
    lemma_trim_idempotent(b);
    assert(instruction_spec("USER "@ + b) == Ok::<InstructionV, ErrorV>(InstructionV::User(trim(b)))) by {
        reveal_strlit("USER ");
        reveal_strlit("USER");
        assert("USER"@ + seq![' '] + b =~= "USER "@ + b);
        lemma_keyword_line("USER"@, b);
    }
    assert(instruction_spec("WORKDIR "@ + b) == Ok::<InstructionV, ErrorV>(InstructionV::Workdir(trim(b)))) by {
        reveal_strlit("WORKDIR ");
        reveal_strlit("WORKDIR");
        assert("WORKDIR"@ + seq![' '] + b =~= "WORKDIR "@ + b);
        lemma_keyword_line("WORKDIR"@, b);
    }
    assert(instruction_spec("MAINTAINER "@ + b) == Ok::<InstructionV, ErrorV>(InstructionV::Maintainer(trim(b)))) by {
        reveal_strlit("MAINTAINER ");
        reveal_strlit("MAINTAINER");
        assert("MAINTAINER"@ + seq![' '] + b =~= "MAINTAINER "@ + b);
        lemma_keyword_line("MAINTAINER"@, b);
    }
    assert(instruction_spec("STOPSIGNAL "@ + b) == Ok::<InstructionV, ErrorV>(InstructionV::Stopsignal(trim(b)))) by {
        reveal_strlit("STOPSIGNAL ");
        reveal_strlit("STOPSIGNAL");
        assert("STOPSIGNAL"@ + seq![' '] + b =~= "STOPSIGNAL "@ + b);
        lemma_keyword_line("STOPSIGNAL"@, b);
    }
    assert(instruction_spec("EXPOSE "@ + b) == Ok::<InstructionV, ErrorV>(InstructionV::Expose(ports_spec(trim(b))))) by {
        reveal_strlit("EXPOSE ");
        reveal_strlit("EXPOSE");
        assert("EXPOSE"@ + seq![' '] + b =~= "EXPOSE "@ + b);
        lemma_keyword_line("EXPOSE"@, b);
    }
    assert(instruction_spec("RUN "@ + b) == (match shell_or_exec_spec(trim(b)) {
            Ok(c) => Ok(InstructionV::Run(c)),
            Err(e) => Err(e),
        })) by {
        reveal_strlit("RUN ");
        reveal_strlit("RUN");
        assert("RUN"@ + seq![' '] + b =~= "RUN "@ + b);
        lemma_keyword_line("RUN"@, b);
    }
    assert(instruction_spec("CMD "@ + b) == (match shell_or_exec_spec(trim(b)) {
            Ok(c) => Ok(InstructionV::Cmd(c)),
            Err(e) => Err(e),
        })) by {
        reveal_strlit("CMD ");
        reveal_strlit("CMD");
        assert("CMD"@ + seq![' '] + b =~= "CMD "@ + b);
        lemma_keyword_line("CMD"@, b);
    }
    assert(instruction_spec("ENTRYPOINT "@ + b) == (match shell_or_exec_spec(trim(b)) {
            Ok(c) => Ok(InstructionV::Entrypoint(c)),
            Err(e) => Err(e),
        })) by {
        reveal_strlit("ENTRYPOINT ");
        reveal_strlit("ENTRYPOINT");
        assert("ENTRYPOINT"@ + seq![' '] + b =~= "ENTRYPOINT "@ + b);
        lemma_keyword_line("ENTRYPOINT"@, b);
    }
}

/// A line that starts with a keyword, a space and a body that is not blank parses to that
/// keyword's instruction, read from the trimmed body: `FROM` to the base image, `LABEL` and
/// `ENV` to their pairs, `ADD` and `COPY` to their copy, `VOLUME`, `HEALTHCHECK`, `SHELL` and
/// `ARG` to theirs.
#[verifier::rlimit(40)]
pub proof fn law_keyword_structured_instructions(b: Seq<char>)
    requires
        exists|j: int| 0 <= j < b.len() && !is_ws(#[trigger] b[j]),
    ensures
        instruction_spec("FROM "@ + b) == (match from_spec(trim(b)) {
            Ok(x) => Ok(InstructionV::From(x)),
            Err(e) => Err(e),
        }),
        instruction_spec("LABEL "@ + b) == (match key_values_spec(trim(b)) {
            Ok(x) => Ok(InstructionV::Label(x)),
            Err(e) => Err(e),
        }),
        instruction_spec("ENV "@ + b) == (match key_values_spec(trim(b)) {
            Ok(x) => Ok(InstructionV::Env(x)),
            Err(e) => Err(e),
        }),
        instruction_spec("ADD "@ + b) == (match copy_spec(trim(b)) {
            Ok(x) => Ok(InstructionV::Add(x)),
            Err(e) => Err(e),
        }),
        instruction_spec("COPY "@ + b) == (match copy_spec(trim(b)) {
            Ok(x) => Ok(InstructionV::Copy(x)),
            Err(e) => Err(e),
        }),
        instruction_spec("VOLUME "@ + b) == (match string_list_spec(trim(b)) {
            Ok(x) => Ok(InstructionV::Volume(x)),
            Err(e) => Err(e),
        }),
        instruction_spec("HEALTHCHECK "@ + b) == (match healthcheck_spec(trim(b)) {
            Ok(x) => Ok(InstructionV::Healthcheck(x)),
            Err(e) => Err(e),
        }),
        instruction_spec("SHELL "@ + b) == (match json_array_spec(trim(b)) {
            Ok(x) => Ok(InstructionV::Shell(x)),
            Err(e) => Err(e),
        }),
        instruction_spec("ARG "@ + b) == (match split_once(trim(b), '=') {
            Some((name, default)) => Ok::<InstructionV, ErrorV>(
                InstructionV::Arg { name: trim(name), default: Some(trim(default)) },
            ),
            None => Ok(InstructionV::Arg { name: trim(b), default: None }),
        }),
{
    lemma_keyword_names();
    assert(instruction_spec("FROM "@ + b) == (match from_spec(trim(b)) {
            Ok(x) => Ok(InstructionV::From(x)),
            Err(e) => Err(e),
        })) by {
        reveal_strlit("FROM ");
        reveal_strlit("FROM");
        assert("FROM"@ + seq![' '] + b =~= "FROM "@ + b);
        lemma_keyword_line("FROM"@, b);
    }
    assert(instruction_spec("LABEL "@ + b) == (match key_values_spec(trim(b)) {
            Ok(x) => Ok(InstructionV::Label(x)),
            Err(e) => Err(e),
        })) by {
        reveal_strlit("LABEL ");
        reveal_strlit("LABEL");
        assert("LABEL"@ + seq![' '] + b =~= "LABEL "@ + b);
        lemma_keyword_line("LABEL"@, b);
    }
    assert(instruction_spec("ENV "@ + b) == (match key_values_spec(trim(b)) {
            Ok(x) => Ok(InstructionV::Env(x)),
            Err(e) => Err(e),
        })) by {
        reveal_strlit("ENV ");
        reveal_strlit("ENV");
        assert("ENV"@ + seq![' '] + b =~= "ENV "@ + b);
        lemma_keyword_line("ENV"@, b);
    }
    assert(instruction_spec("ADD "@ + b) == (match copy_spec(trim(b)) {
            Ok(x) => Ok(InstructionV::Add(x)),
            Err(e) => Err(e),
        })) by {
        reveal_strlit("ADD ");
        reveal_strlit("ADD");
        assert("ADD"@ + seq![' '] + b =~= "ADD "@ + b);
        lemma_keyword_line("ADD"@, b);
    }
    assert(instruction_spec("COPY "@ + b) == (match copy_spec(trim(b)) {
            Ok(x) => Ok(InstructionV::Copy(x)),
            Err(e) => Err(e),
        })) by {
        reveal_strlit("COPY ");
        reveal_strlit("COPY");
        assert("COPY"@ + seq![' '] + b =~= "COPY "@ + b);
        lemma_keyword_line("COPY"@, b);
    }
    assert(instruction_spec("VOLUME "@ + b) == (match string_list_spec(trim(b)) {
            Ok(x) => Ok(InstructionV::Volume(x)),
            Err(e) => Err(e),
        })) by {
        reveal_strlit("VOLUME ");
        reveal_strlit("VOLUME");
        assert("VOLUME"@ + seq![' '] + b =~= "VOLUME "@ + b);
        lemma_keyword_line("VOLUME"@, b);
    }
    assert(instruction_spec("HEALTHCHECK "@ + b) == (match healthcheck_spec(trim(b)) {
            Ok(x) => Ok(InstructionV::Healthcheck(x)),
            Err(e) => Err(e),
        })) by {
        reveal_strlit("HEALTHCHECK ");
        reveal_strlit("HEALTHCHECK");
        assert("HEALTHCHECK"@ + seq![' '] + b =~= "HEALTHCHECK "@ + b);
        lemma_keyword_line("HEALTHCHECK"@, b);
    }
    assert(instruction_spec("SHELL "@ + b) == (match json_array_spec(trim(b)) {
            Ok(x) => Ok(InstructionV::Shell(x)),
            Err(e) => Err(e),
        })) by {
        reveal_strlit("SHELL ");
        reveal_strlit("SHELL");
        assert("SHELL"@ + seq![' '] + b =~= "SHELL "@ + b);
        lemma_keyword_line("SHELL"@, b);
    }
    assert(instruction_spec("ARG "@ + b) == (match split_once(trim(b), '=') {
            Some((name, default)) => Ok::<InstructionV, ErrorV>(
                InstructionV::Arg { name: trim(name), default: Some(trim(default)) },
            ),
            None => Ok(InstructionV::Arg { name: trim(b), default: None }),
        })) by {
        reveal_strlit("ARG ");
        reveal_strlit("ARG");
        lemma_trim_idempotent(b);
        assert("ARG"@ + seq![' '] + b =~= "ARG "@ + b);
        lemma_keyword_line("ARG"@, b);
    }
}

// ---------------------------------------------------------------------------
// Multi-stage grouping
// ---------------------------------------------------------------------------

/// Number of `FROM` instructions.
pub open spec fn count_froms(s: Seq<InstructionV>) -> nat
    decreases s.len(),
{
    if s.len() == 0 {
        0
    } else {
        count_froms(s.drop_last()) + if s.last() is From {
            1nat
        } else {
            0nat
        }
    }
}

/// The `FROM` instructions of `s`, in order.
pub open spec fn froms_of(s: Seq<InstructionV>) -> Seq<FromV>
    decreases s.len(),
{
    if s.len() == 0 {
        Seq::empty()
    } else {
        match s.last() {
            InstructionV::From(f) => froms_of(s.drop_last()).push(f),
            _ => froms_of(s.drop_last()),
        }
    }
}

/// The instructions of `s` other than `FROM`, in order.
pub open spec fn non_froms_of(s: Seq<InstructionV>) -> Seq<InstructionV>
    decreases s.len(),
{
    if s.len() == 0 {
        Seq::empty()
    } else if s.last() is From {
        non_froms_of(s.drop_last())
    } else {
        non_froms_of(s.drop_last()).push(s.last())
    }
}

/// The left-to-right grouping pass: finished stages, the open stage's `FROM`, and the
/// instructions collected for it.
pub open spec fn group_fold(s: Seq<InstructionV>) -> (Seq<InstructionV>, Option<FromV>, Seq<
    InstructionV,
>)
    decreases s.len(),
{
    if s.len() == 0 {
        (Seq::empty(), None, Seq::empty())
    } else {
        let (g, cur, body) = group_fold(s.drop_last());
        match s.last() {
            InstructionV::From(f) => match cur {
                Some(prev) => (g.push(InstructionV::Stage { from: prev, body }), Some(f), Seq::empty()),
                None => (g, Some(f), body),
            },
            x => (g, cur, body.push(x)),
        }
    }
}

/// `group_stages`: with two or more `FROM`s, every `FROM` opens a stage holding the
/// instructions up to the next `FROM` (the first stage also those before the first `FROM`).
pub open spec fn group_stages_spec(s: Seq<InstructionV>) -> Seq<InstructionV> {
    if count_froms(s) <= 1 {
        s
    } else {
        let (g, cur, body) = group_fold(s);
        match cur {
            Some(f) => g.push(InstructionV::Stage { from: f, body }),
            None => g,
        }
    }
}

/// `Dockerfile::parse`.
pub open spec fn dockerfile_spec(input: Seq<char>) -> core::result::Result<Seq<InstructionV>, ErrorV> {
    match instructions_spec(logical_lines_spec(input)) {
        Ok(is) => Ok(group_stages_spec(is)),
        Err(e) => Err(e),
    }
}


// ---------------------------------------------------------------------------
// Parsers
// ---------------------------------------------------------------------------

/// The view of a result that carries strings.
pub open spec fn strs_result(r: Result<Vec<String>>) -> core::result::Result<Seq<Seq<char>>, ErrorV> {
    match r {
        Ok(v) => Ok(strs_view(v@)),
        Err(e) => Err(e@),
    }
}

/// A JSON array of strings.
pub fn parse_json_array(value: &str) -> (r: Result<Vec<String>>)
    ensures
        strs_result(r) == json_array_spec(value@),
{
    match json_strings(value) {
        Ok(v) => Ok(v),
        Err(m) => Err(Error::DockerfileParse(m)),
    }
}

impl ShellOrExec {
    /// The exec form (a JSON array) when the trimmed text starts with `[`, else the shell
    /// form holding the trimmed text.
    pub fn parse(value: &str) -> (r: Result<Self>)
        ensures
            crate::result_view(r) == shell_or_exec_spec(value@),
    {
        let v = chars_of(value);
        assert(v@.subrange(0, v@.len() as int) =~= v@);
        let (a, b) = trim_bounds(&v, 0, v.len());
        let t = string_of(&v, a, b);
        if a < b && v[a] == '[' {
            assert(t@[0] == v@[a as int]);
            match parse_json_array(t.as_str()) {
                Ok(parts) => Ok(ShellOrExec::Exec(parts)),
                Err(e) => Err(e),
            }
        } else {
            Ok(ShellOrExec::Shell(t))
        }
    }
}


proof fn lemma_leading_platforms_step(f: Seq<Seq<char>>, k: int)
    requires
        0 <= k < f.len(),
    ensures
        leading_platforms(f.skip(k)) == if starts_with(f[k], "--platform="@) {
            1 + leading_platforms(f.skip(k + 1))
        } else {
            0
        },
{
    assert(f.skip(k).drop_first() =~= f.skip(k + 1));
    assert(f.skip(k)[0] == f[k]);
}

proof fn lemma_leading_flags_step(f: Seq<Seq<char>>, k: int)
    requires
        0 <= k < f.len(),
    ensures
        leading_flags(f.skip(k)) == if starts_with(f[k], "--"@) {
            1 + leading_flags(f.skip(k + 1))
        } else {
            0
        },
{
    assert(f.skip(k).drop_first() =~= f.skip(k + 1));
    assert(f.skip(k)[0] == f[k]);
}

/// `FROM` from its shell words.
pub fn parse_from_fields(fields: Vec<String>) -> (r: Result<FromInstruction>)
    ensures
        crate::result_view(r) == from_fields_spec(strs_view(fields@)),
{
    let ghost f = strs_view(fields@);
    let prefix = chars_of("--platform=");
    let mut platform: Option<String> = None;
    let mut k: usize = 0;
    assert(f.skip(0) =~= f);
    while k < fields.len()
        invariant
            k <= fields@.len(),
            f == strs_view(fields@),
            prefix@ == "--platform="@,
            leading_platforms(f) == k + leading_platforms(f.skip(k as int)),
            opt_view(platform) == if k > 0 {
                Some(f[k - 1].skip("--platform="@.len() as int))
            } else {
                None::<Seq<char>>
            },
        ensures
            leading_platforms(f.skip(k as int)) == 0,
            leading_platforms(f) == k + leading_platforms(f.skip(k as int)),
            k <= fields@.len(),
            f == strs_view(fields@),
            opt_view(platform) == if k > 0 {
                Some(f[k - 1].skip("--platform="@.len() as int))
            } else {
                None::<Seq<char>>
            },
        decreases fields@.len() - k,
    {
        let w = chars_of(fields[k].as_str());
        assert(w@.subrange(0, w@.len() as int) =~= w@);
        proof {
            lemma_leading_platforms_step(f, k as int);
        }
        if !range_starts_with(&w, 0, w.len(), &prefix) {
            break;
        }
        platform = Some(string_of(&w, prefix.len(), w.len()));
        k += 1;
    }
    proof {
        if k == fields@.len() {
            assert(f.skip(k as int).len() == 0);
        }
    }
    let ghost n = leading_platforms(f) as int;
    assert(n == k);
    if k >= fields.len() {
        return Err(Error::DockerfileParse(String::from_str("FROM requires an image")));
    }
    let image = fields[k].clone();
    let mut alias: Option<String> = None;
    if k + 1 < fields.len() {
        if !str_eq_ignore_case(fields[k + 1].as_str(), "AS") {
            return Err(
                Error::DockerfileParse(concat("expected AS in FROM, got ", fields[k + 1].as_str())),
            );
        }
        if k + 2 < fields.len() {
            alias = Some(fields[k + 2].clone());
        }
    }
    Ok(FromInstruction { image, platform, alias })
}

/// `FROM`: `[--platform=P]... IMAGE [AS ALIAS]`.
pub fn parse_from(value: &str) -> (r: Result<FromInstruction>)
    ensures
        crate::result_view(r) == from_spec(value@),
{
    match shell_split(value) {
        Ok(fields) => parse_from_fields(fields),
        Err(m) => Err(Error::DockerfileParse(concat("invalid FROM: ", m.as_str()))),
    }
}

/// The key and value of a word split at its first `=`.
fn key_value_of(field: &str) -> (kv: KeyValue)
    ensures
        kv@ == kv_of(field@),
{
    let w = chars_of(field);
    assert(w@.subrange(0, w@.len() as int) =~= w@);
    match find_char(&w, 0, w.len(), '=') {
        Some(i) => {
            assert(w@.take(i as int) =~= w@.subrange(0, i as int));
            assert(w@.skip(i + 1) =~= w@.subrange(i + 1, w@.len() as int));
            KeyValue { key: string_of(&w, 0, i), value: string_of(&w, i + 1, w.len()) }
        },
        None => KeyValue { key: string_of(&w, 0, w.len()), value: String::new() },
    }
}

/// Whether `s` contains `c`.
fn str_has_char(s: &str, c: char) -> (r: bool)
    ensures
        r == has_char(s@, c),
{
    let w = chars_of(s);
    assert(w@.subrange(0, w@.len() as int) =~= w@);
    proof {
        lemma_find_some_iff_has(s@, c);
    }
    find_char(&w, 0, w.len(), c).is_some()
}

/// `LABEL`/`ENV` from its shell words and its text.
pub fn parse_key_value_fields(fields: Vec<String>, value: &str) -> (r: Result<Vec<KeyValue>>)
    ensures
        match r {
            Ok(kvs) => key_values_fields_spec(strs_view(fields@), value@) == Ok::<
                Seq<KeyValueV>,
                ErrorV,
            >(kvs_view(kvs@)),
            Err(e) => key_values_fields_spec(strs_view(fields@), value@) == Err::<
                Seq<KeyValueV>,
                ErrorV,
            >(e@),
        },
{
    let ghost f = strs_view(fields@);
    if fields.len() == 0 {
        let empty: Vec<KeyValue> = Vec::new();
        assert(kvs_view(empty@) =~= Seq::<KeyValueV>::empty());
        return Ok(empty);
    }
    let mut all = true;
    let mut k: usize = 0;
    while k < fields.len()
        invariant
            k <= fields@.len(),
            f == strs_view(fields@),
            all == (forall|i: int| 0 <= i < k ==> has_char(#[trigger] f[i], '=')),
        decreases fields@.len() - k,
    {
        let h = str_has_char(fields[k].as_str(), '=');
        proof {
            if !h {
                assert(!has_char(f[k as int], '='));
            }
        }
        all = all && h;
        k += 1;
    }
    if all {
        let mut kvs: Vec<KeyValue> = Vec::new();
        let mut j: usize = 0;
        while j < fields.len()
            invariant
                j <= fields@.len(),
                f == strs_view(fields@),
                kvs_view(kvs@) == f.take(j as int).map_values(|w: Seq<char>| kv_of(w)),
            decreases fields@.len() - j,
        {
            let kv = key_value_of(fields[j].as_str());
            let ghost prev = kvs@;
            kvs.push(kv);
            assert(kvs_view(kvs@) =~= kvs_view(prev).push(kv@));
            assert(f.take(j + 1).map_values(|w: Seq<char>| kv_of(w)) =~= f.take(j as int).map_values(
                |w: Seq<char>| kv_of(w),
            ).push(kv_of(f[j as int])));
            j += 1;
        }
        assert(f.take(fields@.len() as int) =~= f);
        Ok(kvs)
    } else if fields.len() >= 2 {
        let key = fields[0].clone();
        let rest = join_strings(&fields, 1, " ");
        assert(strs_view(fields@.skip(1)) =~= f.drop_first());
        let mut kvs: Vec<KeyValue> = Vec::new();
        kvs.push(KeyValue { key, value: rest });
        assert(kvs_view(kvs@) =~= seq![KeyValueV { key: f[0], value: join(f.drop_first(), " "@) }]);
        Ok(kvs)
    } else {
        Err(Error::DockerfileParse(concat("expected KEY=VALUE or KEY VALUE, got ", value)))
    }
}

/// `LABEL`/`ENV`: `KEY=VALUE...` or `KEY VALUE...`.
pub fn parse_key_values(value: &str) -> (r: Result<Vec<KeyValue>>)
    ensures
        match r {
            Ok(kvs) => key_values_spec(value@) == Ok::<Seq<KeyValueV>, ErrorV>(kvs_view(kvs@)),
            Err(e) => key_values_spec(value@) == Err::<Seq<KeyValueV>, ErrorV>(e@),
        },
{
    match shell_split(value) {
        Ok(fields) => parse_key_value_fields(fields, value),
        Err(m) => Err(Error::DockerfileParse(concat("invalid key/value list: ", m.as_str()))),
    }
}

/// `EXPOSE`: a port, with an optional `/protocol`, per whitespace-separated word.
pub fn parse_ports(value: &str) -> (ports: Vec<Port>)
    ensures
        ports_view(ports@) == ports_spec(value@),
{
    let v = chars_of(value);
    assert(v@.subrange(0, v@.len() as int) =~= v@);
    let rs = word_ranges(&v, 0, v.len());
    let ghost ws = words(value@);
    let mut ports: Vec<Port> = Vec::new();
    let mut k: usize = 0;
    while k < rs.len()
        invariant
            k <= rs@.len(),
            v@ == value@,
            ws == words(value@),
            ranges_view(v@, rs@) == ws,
            forall|j: int| 0 <= j < rs@.len() ==> #[trigger] rs@[j].0 <= rs@[j].1 <= v@.len(),
            ports_view(ports@) == ws.take(k as int).map_values(|w: Seq<char>| port_of(w)),
        decreases rs@.len() - k,
    {
        let (a, b) = rs[k];
        let ghost w = v@.subrange(a as int, b as int);
        assert(ws[k as int] == w);
        let port = match find_char(&v, a, b, '/') {
            Some(i) => {
                assert(w.take(i - a) =~= v@.subrange(a as int, i as int));
                assert(w.skip(i - a + 1) =~= v@.subrange(i + 1, b as int));
                Port { port: string_of(&v, a, i), protocol: Some(string_of(&v, i + 1, b)) }
            },
            None => Port { port: string_of(&v, a, b), protocol: None },
        };
        assert(port@ == port_of(w));
        let ghost prev = ports@;
        ports.push(port);
        assert(ports_view(ports@) =~= ports_view(prev).push(port@));
        assert(ws.take(k + 1).map_values(|w: Seq<char>| port_of(w)) =~= ws.take(k as int).map_values(
            |w: Seq<char>| port_of(w),
        ).push(port_of(ws[k as int])));
        k += 1;
    }
    assert(ws.take(rs@.len() as int) =~= ws);
    ports
}

/// `COPY`/`ADD` from its shell words.
pub fn parse_copy_fields(fields: Vec<String>) -> (r: Result<CopyInstruction>)
    ensures
        crate::result_view(r) == copy_fields_spec(strs_view(fields@)),
{
    let ghost f = strs_view(fields@);
    let dashes = chars_of("--");
    let from_prefix = chars_of("--from=");
    let mut from: Option<String> = None;
    let mut k: usize = 0;
    assert(f.skip(0) =~= f);
    assert(f.take(0) =~= Seq::<Seq<char>>::empty());
    while k < fields.len()
        invariant
            k <= fields@.len(),
            f == strs_view(fields@),
            dashes@ == "--"@,
            from_prefix@ == "--from="@,
            leading_flags(f) == k + leading_flags(f.skip(k as int)),
            opt_view(from) == last_from(f.take(k as int)),
        ensures
            k <= fields@.len(),
            f == strs_view(fields@),
            leading_flags(f.skip(k as int)) == 0,
            leading_flags(f) == k + leading_flags(f.skip(k as int)),
            opt_view(from) == last_from(f.take(k as int)),
        decreases fields@.len() - k,
    {
        let w = chars_of(fields[k].as_str());
        assert(w@.subrange(0, w@.len() as int) =~= w@);
        proof {
            lemma_leading_flags_step(f, k as int);
        }
        if !range_starts_with(&w, 0, w.len(), &dashes) {
            break;
        }
        proof {
            assert(f.take(k + 1).drop_last() =~= f.take(k as int));
            assert(f.take(k + 1).last() == w@);
        }
        if range_starts_with(&w, 0, w.len(), &from_prefix) {
            from = Some(string_of(&w, from_prefix.len(), w.len()));
            assert(w@.subrange(from_prefix@.len() as int, w@.len() as int) =~= w@.skip(
                "--from="@.len() as int,
            ));
        }
        k += 1;
    }
    proof {
        if k == fields@.len() {
            assert(f.skip(k as int).len() == 0);
        }
    }
    let ghost n = leading_flags(f) as int;
    assert(n == k);
    if fields.len() - k < 2 {
        return Err(
            Error::DockerfileParse(
                String::from_str("COPY/ADD requires at least one source and a destination"),
            ),
        );
    }
    let flags = clone_range(&fields, 0, k);
    let sources = clone_range(&fields, k, fields.len() - 1);
    let destination = fields[fields.len() - 1].clone();
    proof {
        assert(strs_view(fields@.subrange(0, k as int)) =~= f.take(k as int));
        assert(strs_view(fields@.subrange(k as int, fields@.len() - 1)) =~= f.skip(k as int).drop_last());
        assert(f.skip(k as int).last() == f[fields@.len() - 1]);
    }
    Ok(CopyInstruction { flags, from, sources, destination })
}

/// `COPY`/`ADD`: `[--flag]... SOURCE... DESTINATION`.
pub fn parse_copy_like(value: &str) -> (r: Result<CopyInstruction>)
    ensures
        crate::result_view(r) == copy_spec(value@),
{
    match shell_split(value) {
        Ok(fields) => parse_copy_fields(fields),
        Err(m) => Err(Error::DockerfileParse(concat("invalid copy instruction: ", m.as_str()))),
    }
}

/// `HEALTHCHECK` from its shell words.
pub fn parse_healthcheck_fields(fields: Vec<String>) -> (r: Result<Healthcheck>)
    ensures
        crate::result_view(r) == healthcheck_fields_spec(strs_view(fields@)),
{
    let ghost f = strs_view(fields@);
    let mut k: usize = 0;
    while k < fields.len()
        invariant
            k <= fields@.len(),
            f == strs_view(fields@),
            forall|j: int| 0 <= j < k ==> !eq_ignore_case(#[trigger] f[j], "CMD"@),
        decreases fields@.len() - k,
    {
        if str_eq_ignore_case(fields[k].as_str(), "CMD") {
            proof {
                assert(first_cmd_at(f, k as int));
                let c = choose|i: int| first_cmd_at(f, i);
                assert(c == k) by {
                    if c < k {
                        assert(!eq_ignore_case(f[c], "CMD"@));
                    }
                    if k < c {
                        assert(!eq_ignore_case(f[k as int], "CMD"@));
                    }
                }
            }
            let options = clone_range(&fields, 0, k);
            let text = join_strings(&fields, k + 1, " ");
            assert(strs_view(fields@.subrange(0, k as int)) =~= f.take(k as int));
            assert(strs_view(fields@.skip(k + 1)) =~= f.skip(k + 1));
            return match ShellOrExec::parse(text.as_str()) {
                Ok(command) => Ok(Healthcheck::Command { options, command }),
                Err(e) => Err(e),
            };
        }
        k += 1;
    }
    assert(!exists|i: int| first_cmd_at(f, i));
    Err(Error::DockerfileParse(String::from_str("HEALTHCHECK requires CMD or NONE")))
}

/// `HEALTHCHECK`: `NONE`, or `[OPTION]... CMD COMMAND`.
pub fn parse_healthcheck(value: &str) -> (r: Result<Healthcheck>)
    ensures
        crate::result_view(r) == healthcheck_spec(value@),
{
    let v = chars_of(value);
    assert(v@.subrange(0, v@.len() as int) =~= v@);
    let (a, b) = trim_bounds(&v, 0, v.len());
    let t = string_of(&v, a, b);
    if str_eq_ignore_case(t.as_str(), "NONE") {
        return Ok(Healthcheck::Disabled);
    }
    match shell_split(t.as_str()) {
        Ok(fields) => parse_healthcheck_fields(fields),
        Err(m) => Err(Error::DockerfileParse(concat("invalid healthcheck: ", m.as_str()))),
    }
}

/// `VOLUME`: a JSON array of strings, or shell words.
pub fn parse_string_or_json_array(value: &str) -> (r: Result<Vec<String>>)
    ensures
        strs_result(r) == string_list_spec(value@),
{
    let v = chars_of(value);
    assert(v@.subrange(0, v@.len() as int) =~= v@);
    let (a, b) = trim_bounds(&v, 0, v.len());
    let t = string_of(&v, a, b);
    if a < b && v[a] == '[' {
        assert(t@[0] == v@[a as int]);
        parse_json_array(t.as_str())
    } else {
        match shell_split(t.as_str()) {
            Ok(fields) => Ok(fields),
            Err(m) => Err(Error::DockerfileParse(concat("invalid string list: ", m.as_str()))),
        }
    }
}


/// `s` trimmed, as a new `String`.
pub fn trimmed(s: &str) -> (r: String)
    ensures
        r@ == trim(s@),
{
    let v = chars_of(s);
    assert(v@.subrange(0, v@.len() as int) =~= v@);
    let (a, b) = trim_bounds(&v, 0, v.len());
    string_of(&v, a, b)
}

/// The instruction for an upper-cased keyword and its trimmed body.
fn keyword_instruction(kw: String, value: String) -> (r: Result<Instruction>)
    ensures
        crate::result_view(r) == keyword_spec(kw@, value@),
{
    let value = value.as_str();
    if str_eq(kw.as_str(), "FROM") {
        match parse_from(value) {
            Ok(f) => Ok(Instruction::From(f)),
            Err(e) => Err(e),
        }
    } else if str_eq(kw.as_str(), "RUN") {
        match ShellOrExec::parse(value) {
            Ok(c) => Ok(Instruction::Run(c)),
            Err(e) => Err(e),
        }
    } else if str_eq(kw.as_str(), "CMD") {
        match ShellOrExec::parse(value) {
            Ok(c) => Ok(Instruction::Cmd(c)),
            Err(e) => Err(e),
        }
    } else if str_eq(kw.as_str(), "LABEL") {
        match parse_key_values(value) {
            Ok(kvs) => Ok(Instruction::Label(kvs)),
            Err(e) => Err(e),
        }
    } else if str_eq(kw.as_str(), "MAINTAINER") {
        Ok(Instruction::Maintainer(trimmed(value)))
    } else if str_eq(kw.as_str(), "EXPOSE") {
        Ok(Instruction::Expose(parse_ports(value)))
    } else if str_eq(kw.as_str(), "ENV") {
        match parse_key_values(value) {
            Ok(kvs) => Ok(Instruction::Env(kvs)),
            Err(e) => Err(e),
        }
    } else if str_eq(kw.as_str(), "ADD") {
        match parse_copy_like(value) {
            Ok(c) => Ok(Instruction::Add(c)),
            Err(e) => Err(e),
        }
    } else if str_eq(kw.as_str(), "COPY") {
        match parse_copy_like(value) {
            Ok(c) => Ok(Instruction::Copy(c)),
            Err(e) => Err(e),
        }
    } else if str_eq(kw.as_str(), "ENTRYPOINT") {
        match ShellOrExec::parse(value) {
            Ok(c) => Ok(Instruction::Entrypoint(c)),
            Err(e) => Err(e),
        }
    } else if str_eq(kw.as_str(), "VOLUME") {
        match parse_string_or_json_array(value) {
            Ok(v) => Ok(Instruction::Volume(v)),
            Err(e) => Err(e),
        }
    } else if str_eq(kw.as_str(), "USER") {
        Ok(Instruction::User(trimmed(value)))
    } else if str_eq(kw.as_str(), "WORKDIR") {
        Ok(Instruction::Workdir(trimmed(value)))
    } else if str_eq(kw.as_str(), "ARG") {
        let v = chars_of(value);
        assert(v@.subrange(0, v@.len() as int) =~= v@);
        match find_char(&v, 0, v.len(), '=') {
            Some(i) => {
                let (na, nb) = trim_bounds(&v, 0, i);
                let (da, db) = trim_bounds(&v, i + 1, v.len());
                assert(v@.take(i as int) =~= v@.subrange(0, i as int));
                assert(v@.skip(i + 1) =~= v@.subrange(i + 1, v@.len() as int));
                Ok(
                    Instruction::Arg {
                        name: string_of(&v, na, nb),
                        default: Some(string_of(&v, da, db)),
                    },
                )
            },
            None => Ok(Instruction::Arg { name: trimmed(value), default: None }),
        }
    } else if str_eq(kw.as_str(), "STOPSIGNAL") {
        Ok(Instruction::Stopsignal(trimmed(value)))
    } else if str_eq(kw.as_str(), "HEALTHCHECK") {
        match parse_healthcheck(value) {
            Ok(h) => Ok(Instruction::Healthcheck(h)),
            Err(e) => Err(e),
        }
    } else if str_eq(kw.as_str(), "SHELL") {
        match parse_json_array(value) {
            Ok(v) => Ok(Instruction::Shell(v)),
            Err(e) => Err(e),
        }
    } else {
        Ok(Instruction::Unknown { keyword: kw, value: trimmed(value) })
    }
}

/// A line split at its first whitespace: the keyword in upper case and the trimmed rest;
/// an error when the line has no whitespace.
pub open spec fn split_keyword_spec(line: Seq<char>) -> core::result::Result<(Seq<char>, Seq<char>), ErrorV> {
    match find_ws(line) {
        None => Err(dp("instruction has no body: "@ + line)),
        Some(i) => Ok((upper(line.take(i)), trim(line.skip(i + 1)))),
    }
}

/// The view of a split line.
pub open spec fn split_view(r: Result<(String, String)>) -> core::result::Result<(Seq<char>, Seq<char>), ErrorV> {
    match r {
        Ok((k, v)) => Ok((k@, v@)),
        Err(e) => Err(e@),
    }
}

/// `split_keyword` of the text `v[lo..hi]`.
fn split_keyword_in(v: &Vec<char>, lo: usize, hi: usize) -> (r: Result<(String, String)>)
    requires
        lo <= hi <= v@.len(),
    ensures
        split_view(r) == split_keyword_spec(v@.subrange(lo as int, hi as int)),
{
    let ghost t = v@.subrange(lo as int, hi as int);
    match find_whitespace(v, lo, hi) {
        None => {
            let t = string_of(v, lo, hi);
            Err(Error::DockerfileParse(concat("instruction has no body: ", t.as_str())))
        },
        Some(i) => {
            let kw = string_of_case(v, lo, i, true);
            let (va, vb) = trim_bounds(v, i + 1, hi);
            let value = string_of(v, va, vb);
            assert(t.take(i - lo) =~= v@.subrange(lo as int, i as int));
            assert(t.skip(i - lo + 1) =~= v@.subrange(i + 1, hi as int));
            Ok((kw, value))
        },
    }
}

/// Splits an instruction line into its upper-cased keyword and its trimmed body.
pub fn split_keyword(line: &str) -> (r: Result<(String, String)>)
    ensures
        split_view(r) == split_keyword_spec(line@),
{
    let v = chars_of(line);
    assert(v@.subrange(0, v@.len() as int) =~= v@);
    split_keyword_in(&v, 0, v.len())
}

impl Instruction {
    /// One logical line: a `#` comment or parser directive, or `KEYWORD BODY`.
    pub fn parse(line: &str) -> (r: Result<Instruction>)
        ensures
            crate::result_view(r) == instruction_spec(line@),
        decreases line@.len(),
    {
        let v = chars_of(line);
        assert(v@.subrange(0, v@.len() as int) =~= v@);
        let (a, b) = trim_bounds(&v, 0, v.len());
        let ghost t = v@.subrange(a as int, b as int);
        if a < b && v[a] == '#' {
            let ghost comment = t.drop_first();
            assert(comment =~= v@.subrange(a + 1, b as int));
            match find_char(&v, a + 1, b, '=') {
                Some(i) => {
                    let (ka, kb) = trim_bounds(&v, a + 1, i);
                    let (va, vb) = trim_bounds(&v, i + 1, b);
                    assert(comment.take(i - (a + 1)) =~= v@.subrange(a + 1, i as int));
                    assert(comment.skip(i - (a + 1) + 1) =~= v@.subrange(i + 1, b as int));
                    Ok(
                        Instruction::ParserDirective {
                            key: string_of_case(&v, ka, kb, false),
                            value: string_of(&v, va, vb),
                        },
                    )
                },
                None => {
                    let (ca, cb) = trim_bounds(&v, a + 1, b);
                    Ok(Instruction::Comment(string_of(&v, ca, cb)))
                },
            }
        } else {
            match split_keyword_in(&v, a, b) {
                Err(e) => Err(e),
                Ok((kw, value)) => {
                    proof {
                        let i = find_ws(t)->0;
                        assert(first_ws_at(t, i));
                        lemma_trim_len(t.skip(i + 1));
                        lemma_trim_len(line@);
                    }
                    if str_eq(kw.as_str(), "ONBUILD") {
                        match Instruction::parse(value.as_str()) {
                            Ok(x) => Ok(Instruction::Onbuild(Box::new(x))),
                            Err(e) => Err(e),
                        }
                    } else {
                        keyword_instruction(kw, value)
                    }
                },
            }
        }
    }
}

/// `cur` extended with `v[lo..hi]`.
fn extend_chars(cur: &mut Vec<char>, v: &Vec<char>, lo: usize, hi: usize)
    requires
        lo <= hi <= v@.len(),
    ensures
        final(cur)@ == old(cur)@ + v@.subrange(lo as int, hi as int),
{
    let mut k = lo;
    while k < hi
        invariant
            lo <= k <= hi <= v@.len(),
            cur@ == old(cur)@ + v@.subrange(lo as int, k as int),
        decreases hi - k,
    {
        cur.push(v[k]);
        assert(old(cur)@ + v@.subrange(lo as int, k + 1) =~= old(cur)@ + v@.subrange(
            lo as int,
            k as int,
        ) + seq![v@[k as int]]);
        k += 1;
    }
}

/// The input's physical lines joined where a line ends in a backslash, each trimmed.
pub fn logical_lines(input: &str) -> (r: Vec<String>)
    ensures
        strs_view(r@) == logical_lines_spec(input@),
{
    let v = chars_of(input);
    let n = v.len();
    assert(v@.subrange(0, n as int) =~= v@);
    let mut out: Vec<String> = Vec::new();
    let mut cur: Vec<char> = Vec::new();
    let mut pos: usize = 0;
    while pos < n
        invariant
            pos <= n == v@.len(),
            v@ == input@,
            logical_lines_spec(input@) == strs_view(out@) + logical_from(
                lines(v@.subrange(pos as int, n as int)),
                cur@,
            ),
        decreases n - pos,
    {
        let ghost s = v@.subrange(pos as int, n as int);
        let ghost ls = lines(s);
        let found = find_char(&v, pos, n, '\n');
        let (mut le, next) = match found {
            Some(i) => (i, i + 1),
            None => (n, n),
        };
        proof {
            match found {
                Some(i) => {
                    assert(s.take(i - pos) =~= v@.subrange(pos as int, i as int));
                    assert(s.skip(i - pos + 1) =~= v@.subrange(i + 1, n as int));
                },
                None => {},
            }
        }
        if found.is_some() && le > pos && v[le - 1] == '\r' {
            le = le - 1;
            assert(v@.subrange(pos as int, le + 1).drop_last() =~= v@.subrange(pos as int, le as int));
        }
        let ghost raw = v@.subrange(pos as int, le as int);
        assert(ls.len() > 0 && ls[0] == raw);
        assert(ls.drop_first() =~= lines(v@.subrange(next as int, n as int))) by {
            if found is None {
                assert(lines(v@.subrange(n as int, n as int)) =~= Seq::<Seq<char>>::empty());
            }
        }
        let te = trim_end_bound(&v, pos, le);
        let ghost prev_out = out@;
        let ghost prev_cur = cur@;
        let ghost t = v@.subrange(pos as int, te as int);
        assert(trim_end(ls[0]) == t);
        if te > pos && v[te - 1] == '\\' {
            extend_chars(&mut cur, &v, pos, te - 1);
            cur.push(' ');
            assert(t.drop_last() =~= v@.subrange(pos as int, te - 1));
            assert(t.last() == v@[te - 1]);
            assert(cur@ =~= prev_cur + t.drop_last() + seq![' ']);
            assert(logical_from(ls, prev_cur) == logical_from(ls.drop_first(), cur@));
        } else {
            extend_chars(&mut cur, &v, pos, te);
            let ghost joined = cur@;
            assert(cur@.subrange(0, cur@.len() as int) =~= cur@);
            let (ca, cb) = trim_bounds(&cur, 0, cur.len());
            out.push(string_of(&cur, ca, cb));
            cur = Vec::new();
            assert(strs_view(out@) =~= strs_view(prev_out).push(trim(joined)));
            assert(logical_from(ls, prev_cur) == seq![trim(joined)] + logical_from(
                ls.drop_first(),
                Seq::empty(),
            ));
            assert(cur@ =~= Seq::<char>::empty());
            assert(strs_view(prev_out) + (seq![trim(joined)] + logical_from(
                ls.drop_first(),
                Seq::empty(),
            )) =~= strs_view(out@) + logical_from(ls.drop_first(), Seq::empty()));
        }
        pos = next;
    }
    assert(lines(v@.subrange(n as int, n as int)) =~= Seq::<Seq<char>>::empty());
    assert(cur@.subrange(0, cur@.len() as int) =~= cur@);
    let (ca, cb) = trim_bounds(&cur, 0, cur.len());
    if ca < cb {
        let ghost prev_out = out@;
        out.push(string_of(&cur, ca, cb));
        assert(strs_view(out@) =~= strs_view(prev_out) + seq![trim(cur@)]);
    } else {
        assert(strs_view(out@) + Seq::<Seq<char>>::empty() =~= strs_view(out@));
    }
    out
}


pub proof fn lemma_instrs_view_push(s: Seq<Instruction>, x: Instruction)
    ensures
        instrs_view(s.push(x)) == instrs_view(s).push(instr_view(x)),
{
    lemma_instrs_view(s);
    lemma_instrs_view(s.push(x));
    assert(s.push(x).map_values(|i: Instruction| instr_view(i)) =~= s.map_values(
        |i: Instruction| instr_view(i),
    ).push(instr_view(x)));
}

pub proof fn lemma_instrs_view_index(s: Seq<Instruction>, k: int)
    requires
        0 <= k < s.len(),
    ensures
        instrs_view(s).len() == s.len(),
        instrs_view(s)[k] == instr_view(s[k]),
        instrs_view(s.take(k + 1)) == instrs_view(s.take(k)).push(instr_view(s[k])),
        instrs_view(s.take(k)) == instrs_view(s).take(k),
{
    lemma_instrs_view(s);
    lemma_instrs_view(s.take(k + 1));
    lemma_instrs_view(s.take(k));
    assert(s.take(k + 1) =~= s.take(k).push(s[k]));
    lemma_instrs_view_push(s.take(k), s[k]);
    assert(instrs_view(s.take(k)) =~= instrs_view(s).take(k));
}

/// The view of an optional `FROM`.
pub open spec fn from_opt_view(o: Option<FromInstruction>) -> Option<FromV> {
    match o {
        Some(f) => Some(f@),
        None => None,
    }
}

/// Multi-stage grouping: with two or more `FROM` instructions, each `FROM` and the
/// instructions up to the next one become a `Stage`; otherwise the input is returned.
pub fn group_stages(instructions: Vec<Instruction>) -> (r: Vec<Instruction>)
    ensures
        instrs_view(r@) == group_stages_spec(instrs_view(instructions@)),
{
    let ghost orig = instructions@;
    let ghost s = instrs_view(orig);
    let mut count: usize = 0;
    let mut k: usize = 0;
    assert(orig.take(0) =~= Seq::<Instruction>::empty());
    while k < instructions.len()
        invariant
            k <= instructions@.len(),
            orig == instructions@,
            s == instrs_view(orig),
            count <= k,
            count == count_froms(instrs_view(orig.take(k as int))),
        decreases instructions@.len() - k,
    {
        proof {
            lemma_instrs_view_index(orig, k as int);
            assert(instrs_view(orig.take(k + 1)).drop_last() =~= instrs_view(orig.take(k as int)));
        }
        if let Instruction::From(_) = &instructions[k] {
            count += 1;
        }
        k += 1;
    }
    assert(orig.take(orig.len() as int) =~= orig);
    if count <= 1 {
        return instructions;
    }
    let n = instructions.len();
    let mut rest = instructions;
    let mut grouped: Vec<Instruction> = Vec::new();
    let mut current_from: Option<FromInstruction> = None;
    let mut current_body: Vec<Instruction> = Vec::new();
    let mut k: usize = 0;
    assert(orig.skip(0) =~= orig);
    assert(instrs_view(grouped@) =~= Seq::<InstructionV>::empty());
    assert(instrs_view(current_body@) =~= Seq::<InstructionV>::empty());
    while rest.len() > 0
        invariant
            k <= orig.len(),
            orig.len() == n,
            rest@ == orig.skip(k as int),
            s == instrs_view(orig),
            group_fold(instrs_view(orig.take(k as int))) == (
                instrs_view(grouped@),
                from_opt_view(current_from),
                instrs_view(current_body@),
            ),
        decreases rest@.len(),
    {
        let x = rest.remove(0);
        proof {
            assert(x == orig[k as int]);
            lemma_instrs_view_index(orig, k as int);
            let p = instrs_view(orig.take(k + 1));
            assert(p.drop_last() =~= instrs_view(orig.take(k as int)));
            assert(p.last() == instr_view(x));
            assert(rest@ =~= orig.skip(k + 1));
        }
        match x {
            Instruction::From(f) => {
                match current_from {
                    Some(prev) => {
                        let body = current_body;
                        current_body = Vec::new();
                        let stage = Instruction::Stage {
                            from: prev,
                            dockerfile: Arc::new(Dockerfile { instructions: body }),
                        };
                        proof {
                            lemma_instrs_view_push(grouped@, stage);
                        }
                        grouped.push(stage);
                        assert(instrs_view(current_body@) =~= Seq::<InstructionV>::empty());
                    },
                    None => {},
                }
                current_from = Some(f);
            },
            other => {
                proof {
                    lemma_instrs_view_push(current_body@, other);
                }
                current_body.push(other);
            },
        }
        k += 1;
    }
    assert(orig.take(k as int) =~= orig);
    match current_from {
        Some(f) => {
            let stage = Instruction::Stage {
                from: f,
                dockerfile: Arc::new(Dockerfile { instructions: current_body }),
            };
            proof {
                lemma_instrs_view_push(grouped@, stage);
            }
            grouped.push(stage);
        },
        None => {},
    }
    grouped
}

impl Dockerfile {
    pub fn new(instructions: Vec<Instruction>) -> (d: Self)
        ensures
            d.instructions@ == instructions@,
    {
        Self { instructions }
    }

    /// Parses a Dockerfile: joins continued lines, parses each non-blank logical line,
    /// then groups multi-stage builds. The first line that fails gives the error.
    pub fn parse(input: &str) -> (r: Result<Self>)
        ensures
            match r {
                Ok(d) => dockerfile_spec(input@) == Ok::<Seq<InstructionV>, ErrorV>(d@),
                Err(e) => dockerfile_spec(input@) == Err::<Seq<InstructionV>, ErrorV>(e@),
            },
    {
        let lines = logical_lines(input);
        let ghost ls = strs_view(lines@);
        let mut instructions: Vec<Instruction> = Vec::new();
        let mut k: usize = 0;
        assert(ls.skip(0) =~= ls);
        assert(instrs_view(instructions@) =~= Seq::<InstructionV>::empty());
        while k < lines.len()
            invariant
                k <= lines@.len(),
                ls == strs_view(lines@),
                ls == logical_lines_spec(input@),
                instructions_spec(ls) == match instructions_spec(ls.skip(k as int)) {
                    Ok(rest) => Ok::<Seq<InstructionV>, ErrorV>(instrs_view(instructions@) + rest),
                    Err(e) => Err(e),
                },
            decreases lines@.len() - k,
        {
            let ghost rest = ls.skip(k as int);
            assert(rest.drop_first() =~= ls.skip(k + 1));
            assert(rest[0] == lines@[k as int]@);
            let line = lines[k].as_str();
            if !blank_str(line) {
                match Instruction::parse(line) {
                    Ok(i) => {
                        proof {
                            lemma_instrs_view_push(instructions@, i);
                        }
                        let ghost prev = instrs_view(instructions@);
                        instructions.push(i);
                        proof {
                            match instructions_spec(ls.skip(k + 1)) {
                                Ok(r2) => {
                                    assert(prev + (seq![i@] + r2) =~= instrs_view(instructions@) + r2);
                                },
                                Err(_) => {},
                            }
                        }
                    },
                    Err(e) => {
                        return Err(e);
                    },
                }
            }
            k += 1;
        }
        assert(ls.skip(k as int) =~= Seq::<Seq<char>>::empty());
        assert(instrs_view(instructions@) + Seq::<InstructionV>::empty() =~= instrs_view(
            instructions@,
        ));
        Ok(Self::new(group_stages(instructions)))
    }

    pub fn instructions(&self) -> (r: &[Instruction])
        ensures
            r@ == self.instructions@,
    {
        self.instructions.as_slice()
    }
}

/// Whether `s` holds only whitespace.
fn blank_str(s: &str) -> (r: bool)
    ensures
        r == is_blank(s@),
{
    let v = chars_of(s);
    assert(v@.subrange(0, v@.len() as int) =~= v@);
    blank_range(&v, 0, v.len())
}

impl std::str::FromStr for Dockerfile {
    type Err = Error;

    /// The same as `Dockerfile::parse`.
    fn from_str(s: &str) -> (r: Result<Self>)
        ensures
            match r {
                Ok(d) => dockerfile_spec(s@) == Ok::<Seq<InstructionV>, ErrorV>(d@),
                Err(e) => dockerfile_spec(s@) == Err::<Seq<InstructionV>, ErrorV>(e@),
            },
    {
        Self::parse(s)
    }
}


// ---------------------------------------------------------------------------
// Laws of multi-stage grouping
// ---------------------------------------------------------------------------

/// The `FROM` of each stage of `g`, in order.
pub open spec fn stage_froms(g: Seq<InstructionV>) -> Seq<FromV>
    decreases g.len(),
{
    if g.len() == 0 {
        Seq::empty()
    } else {
        match g.last() {
            InstructionV::Stage { from, .. } => stage_froms(g.drop_last()).push(from),
            _ => stage_froms(g.drop_last()),
        }
    }
}

/// The bodies of the stages of `g`, one after another.
pub open spec fn stage_bodies(g: Seq<InstructionV>) -> Seq<InstructionV>
    decreases g.len(),
{
    if g.len() == 0 {
        Seq::empty()
    } else {
        match g.last() {
            InstructionV::Stage { body, .. } => stage_bodies(g.drop_last()) + body,
            _ => stage_bodies(g.drop_last()),
        }
    }
}

proof fn lemma_group_fold(s: Seq<InstructionV>)
    ensures
        ({
            let (g, cur, body) = group_fold(s);
            &&& forall|i: int| 0 <= i < g.len() ==> g[i] is Stage
            &&& froms_of(s).len() == count_froms(s)
            &&& count_froms(s) == 0 ==> cur is None && g.len() == 0 && body == non_froms_of(s)
                && froms_of(s).len() == 0
            &&& count_froms(s) > 0 ==> {
                &&& cur is Some
                &&& g.len() + 1 == count_froms(s)
                &&& stage_froms(g).push(cur->0) == froms_of(s)
                &&& stage_bodies(g) + body == non_froms_of(s)
            }
        }),
    decreases s.len(),
{
    if s.len() > 0 {
        let p = s.drop_last();
        lemma_group_fold(p);
        let (gp, curp, bodyp) = group_fold(p);
        let x = s.last();
        match x {
            InstructionV::From(f) => {
                match curp {
                    Some(prev) => {
                        let g = gp.push(InstructionV::Stage { from: prev, body: bodyp });
                        assert(g.drop_last() =~= gp);
                        assert forall|i: int| 0 <= i < g.len() implies g[i] is Stage by {
                            if i < gp.len() {
                                assert(g[i] == gp[i]);
                            }
                        }
                        assert(stage_bodies(g) + Seq::<InstructionV>::empty() =~= stage_bodies(gp)
                            + bodyp);
                    },
                    None => {
                        assert(stage_froms(gp) =~= Seq::<FromV>::empty());
                        assert(stage_bodies(gp) =~= Seq::<InstructionV>::empty());
                        assert(stage_froms(gp).push(f) =~= froms_of(s));
                        assert(stage_bodies(gp) + bodyp =~= bodyp);
                    },
                }
            },
            _ => {
                if count_froms(p) > 0 {
                    assert(stage_bodies(gp) + bodyp.push(x) =~= (stage_bodies(gp) + bodyp).push(x));
                }
            },
        }
    }
}

/// Grouping leaves a Dockerfile with at most one `FROM` unchanged.
pub proof fn law_group_stages_single_stage(s: Seq<InstructionV>)
    requires
        count_froms(s) <= 1,
    ensures
        group_stages_spec(s) == s,
{
}

/// With two or more `FROM`s, grouping yields exactly one `Stage` per `FROM`, and nothing
/// but stages.
pub proof fn law_group_stages_one_stage_per_from(s: Seq<InstructionV>)
    requires
        count_froms(s) >= 2,
    ensures
        group_stages_spec(s).len() == count_froms(s),
        forall|i: int| 0 <= i < group_stages_spec(s).len() ==> (#[trigger] group_stages_spec(s)[i]) is Stage,
{
    lemma_group_fold(s);
    let (g, cur, body) = group_fold(s);
    let r = group_stages_spec(s);
    assert forall|i: int| 0 <= i < r.len() implies (#[trigger] r[i]) is Stage by {
        if i < g.len() {
            assert(r[i] == g[i]);
        }
    }
}

/// With two or more `FROM`s, the stages' `FROM`s are the Dockerfile's `FROM`s in order,
/// and the stages' bodies, one after another, are its other instructions in order:
/// grouping loses, adds and reorders nothing.
pub proof fn law_group_stages_preserves_instructions(s: Seq<InstructionV>)
    requires
        count_froms(s) >= 2,
    ensures
        stage_froms(group_stages_spec(s)) == froms_of(s),
        stage_bodies(group_stages_spec(s)) == non_froms_of(s),
{
    lemma_group_fold(s);
    let (g, cur, body) = group_fold(s);
    let r = group_stages_spec(s);
    assert(r.drop_last() =~= g);
}

} // verus!
