//! Extraction of shell commands from the fenced blocks of a markdown text.
//!
//! The text is read line by line. A line holding the opening fence starts a
//! block and fixes its column; inside a block each line, read from that column
//! on, adds to the command being assembled. A line ending with a backslash, or
//! one that opens a here-document, keeps the command open; any other line
//! completes it. Lines may be bounded by a first and a last marker line, and
//! completed commands may be left out by a regular expression.
use crate::pattern::{regex_finds, SkipPattern};
use crate::script::{
    confirm_block, default_body, delayed_body, interactive_blocks, push_decimal,
    push_doubling_quotes, render_command, script_text, shown_text, CONFIRM_ASK, CONFIRM_CLOSE,
    CONFIRM_END, CONFIRM_OPEN, CONFIRM_SHOW, INTERACTIVE_HEADER, MISSING_COMMAND, NEWLINE,
    PREAMBLE, SLEEP,
};
use crate::text::{
    before_space, chars_of, eq_ignore_ascii_case, eq_ignore_ascii_case_exec,
    find, find_exec, lemma_line_end_bounds, line_end_exec, lines_from, lines_of,
    seq_eq, slice_of, starts_with, starts_with_exec, strip_cr, trim, trim_exec,
};
use vstd::prelude::*;

verus! {

/// Opens a block of shell commands, at the column where it stands.
pub const FENCE_OPEN: &'static str = "```shell";

/// Closes a block when it stands at the block's column and ends its line.
pub const FENCE_CLOSE: &'static str = "```";

/// The prompt that may precede the first line of a command.
pub const PROMPT: &'static str = "$ ";

/// Starts a here-document; the word after it is the delimiter.
pub const HEREDOC: &'static str = "<<";

pub const SPACE: &'static str = " ";

pub const FROM_NOT_FOUND: &'static str = "No line matched the execute from: '";

pub const UNTIL_NOT_FOUND: &'static str = "No line matched the execute until: '";

pub const AFTER_FROM: &'static str = "' after the execute from: '";

pub const CLOSING_QUOTE: &'static str = "'";

/// How the commands are run by the generated script.
#[derive(Debug, Clone, Copy, PartialEq, Eq, PartialOrd, Ord)]
pub enum ExecutionMode {
    Default,
    DelayBetweenCommands(u32),
    Interactive,
}

/// The settings of one scan, as values.
pub struct ScanConfig {
    pub from: Option<Seq<char>>,
    pub until: Option<Seq<char>>,
    pub skip: Option<Seq<char>>,
}

/// The state of a scan after some lines.
pub struct ScanState {
    /// The commands completed and kept so far.
    pub commands: Seq<Seq<Seq<char>>>,
    /// The lines of the command being assembled.
    pub buffer: Seq<Seq<char>>,
    /// The column of the open block, if a block is open.
    pub block: Option<int>,
    /// The delimiter of the open here-document, if one is open.
    pub heredoc: Option<Seq<char>>,
    pub from_found: bool,
    pub until_found: bool,
}

pub open spec fn initial_state() -> ScanState {
    ScanState {
        commands: Seq::empty(),
        buffer: Seq::empty(),
        block: None,
        heredoc: None,
        from_found: false,
        until_found: false,
    }
}

/// The column at which `line` opens a block.
pub open spec fn fence_column(line: Seq<char>) -> Option<int> {
    find(line, FENCE_OPEN@)
}

/// `line` closes the block opened at column `col`.
pub open spec fn closes_fence(line: Seq<char>, col: int) -> bool {
    0 <= col < line.len() && line.subrange(col, line.len() as int) == FENCE_CLOSE@
}

/// `line` stands for `marker`: equal once trimmed, up to ASCII case.
pub open spec fn is_marker(line: Seq<char>, marker: Seq<char>) -> bool {
    eq_ignore_ascii_case(trim(line), marker)
}

/// What a line of a block opened at column `col` holds.
pub open spec fn block_text(line: Seq<char>, col: int) -> Seq<char> {
    if 0 <= col < line.len() {
        line.subrange(col, line.len() as int)
    } else {
        Seq::empty()
    }
}

pub open spec fn strip_prompt(s: Seq<char>) -> Seq<char> {
    if starts_with(s, PROMPT@) {
        s.skip(PROMPT@.len() as int)
    } else {
        s
    }
}

/// The delimiter of the here-document that `s` opens: the first word after `<<`.
pub open spec fn heredoc_delimiter(s: Seq<char>) -> Option<Seq<char>> {
    match find(s, HEREDOC@) {
        Some(i) => Some(before_space(trim(s.skip(i + HEREDOC@.len())))),
        None => None,
    }
}

/// `s` ends with a line continuation.
pub open spec fn continues(s: Seq<char>) -> bool {
    s.len() > 0 && s.last() == '\\'
}

/// The lines joined with single spaces.
pub open spec fn join_spaced(lines: Seq<Seq<char>>) -> Seq<char>
    decreases lines.len(),
{
    if lines.len() == 0 {
        Seq::empty()
    } else if lines.len() == 1 {
        lines[0]
    } else {
        join_spaced(lines.drop_last()) + SPACE@ + lines.last()
    }
}

pub open spec fn is_skipped(cfg: ScanConfig, command: Seq<Seq<char>>) -> bool {
    match cfg.skip {
        Some(p) => regex_finds(p, join_spaced(command)),
        None => false,
    }
}

/// The assembled `command` is complete: kept unless skipped, and the buffer empties.
pub open spec fn seal(st: ScanState, command: Seq<Seq<char>>, cfg: ScanConfig) -> ScanState {
    ScanState {
        commands: if is_skipped(cfg, command) {
            st.commands
        } else {
            st.commands.push(command)
        },
        buffer: Seq::empty(),
        ..st
    }
}

/// Reads `text`, a line of an open block. The flag tells whether a command was
/// completed and kept on this line, after which the line is checked against
/// the last marker.
pub open spec fn read_block_line(st: ScanState, text: Seq<char>, cfg: ScanConfig) -> (
    ScanState,
    bool,
) {
    match st.heredoc {
        Some(d) => {
            let command = st.buffer.push(text);
            if text == d {
                (ScanState { heredoc: None, ..seal(st, command, cfg) }, false)
            } else {
                (ScanState { buffer: command, ..st }, false)
            }
        },
        None => {
            let t = if st.buffer.len() == 0 {
                strip_prompt(text)
            } else {
                text
            };
            let command = st.buffer.push(t);
            match heredoc_delimiter(t) {
                Some(d) => (ScanState { buffer: command, heredoc: Some(d), ..st }, false),
                None => if continues(t) {
                    (ScanState { buffer: command, ..st }, false)
                } else {
                    (seal(st, command, cfg), !is_skipped(cfg, command))
                },
            }
        },
    }
}

pub open spec fn check_until(st: ScanState, line: Seq<char>, cfg: ScanConfig) -> ScanState {
    match cfg.until {
        Some(u) => if is_marker(line, u) {
            ScanState { until_found: true, ..st }
        } else {
            st
        },
        None => st,
    }
}

/// One line of the scan.
pub open spec fn step(st: ScanState, line: Seq<char>, cfg: ScanConfig) -> ScanState {
    match fence_column(line) {
        Some(col) => ScanState { block: Some(col), ..st },
        None => if st.block is Some && closes_fence(line, st.block->0) {
            ScanState { block: None, ..st }
        } else if cfg.from is Some && !st.from_found && !is_marker(line, cfg.from->0) {
            st
        } else {
            let st1 = ScanState { from_found: st.from_found || cfg.from is Some, ..st };
            match st1.block {
                Some(col) => {
                    let (st2, check) = read_block_line(st1, block_text(line, col), cfg);
                    if check {
                        check_until(st2, line, cfg)
                    } else {
                        st2
                    }
                },
                None => check_until(st1, line, cfg),
            }
        },
    }
}

/// The scan of `lines`, which stops after the line that matches the last marker.
pub open spec fn scan(lines: Seq<Seq<char>>, cfg: ScanConfig) -> ScanState
    decreases lines.len(),
{
    if lines.len() == 0 {
        initial_state()
    } else {
        let st = scan(lines.drop_last(), cfg);
        if st.until_found {
            st
        } else {
            step(st, lines.last(), cfg)
        }
    }
}

pub open spec fn from_not_found_message(from: Seq<char>) -> Seq<char> {
    FROM_NOT_FOUND@ + from + CLOSING_QUOTE@
}

pub open spec fn until_not_found_message(until: Seq<char>) -> Seq<char> {
    UNTIL_NOT_FOUND@ + until + CLOSING_QUOTE@
}

pub open spec fn until_after_from_message(until: Seq<char>, from: Seq<char>) -> Seq<char> {
    UNTIL_NOT_FOUND@ + until + AFTER_FROM@ + from + CLOSING_QUOTE@
}

/// The commands of `content`, or the message of the error that the scan ends in.
pub open spec fn parse_outcome(content: Seq<char>, cfg: ScanConfig) -> Result<
    Seq<Seq<Seq<char>>>,
    Seq<char>,
> {
    let st = scan(lines_of(content), cfg);
    if cfg.from is Some && !st.from_found {
        Err(from_not_found_message(cfg.from->0))
    } else if cfg.until is Some && !st.until_found {
        Err(
            match cfg.from {
                Some(f) => until_after_from_message(cfg.until->0, f),
                None => until_not_found_message(cfg.until->0),
            },
        )
    } else {
        Ok(st.commands)
    }
}

/// The error that ends a scan whose first or last marker line was not found.
#[derive(Debug, PartialEq, Eq)]
pub struct ParserError {
    message: String,
}

impl View for ParserError {
    type V = Seq<char>;

    closed spec fn view(&self) -> Seq<char> {
        self.message@
    }
}

impl ParserError {
    pub fn new(message: String) -> (r: Self)
        ensures
            r@ == message@,
    {
        ParserError { message }
    }

    pub fn err<R>(message: String) -> (r: Result<R, ParserError>)
        ensures
            r matches Err(e) && e@ == message@,
    {
        Err(Self::new(message))
    }

    pub fn message(&self) -> (r: &str)
        ensures
            r@ == self@,
    {
        self.message.as_str()
    }
}

/// One shell command: its lines as they stand in the text.
#[derive(Debug, PartialEq, Eq)]
pub struct Command<'a> {
    lines: Vec<&'a str>,
}

impl<'a> View for Command<'a> {
    type V = Seq<Seq<char>>;

    closed spec fn view(&self) -> Seq<Seq<char>> {
        self.lines@.map_values(|l: &str| l@)
    }
}

impl<'a> Command<'a> {
    pub fn new(lines: Vec<&'a str>) -> (r: Self)
        ensures
            r@ == lines@.map_values(|l: &str| l@),
    {
        Command { lines }
    }

    pub fn lines(&self) -> (r: &Vec<&'a str>)
        ensures
            r@.map_values(|l: &str| l@) == self@,
    {
        &self.lines
    }
}

/// The commands of a text, in order, with the mode they are to run in.
#[derive(Debug, PartialEq, Eq)]
pub struct Commands<'a> {
    commands: Vec<Command<'a>>,
    execution_mode: ExecutionMode,
}

impl<'a> View for Commands<'a> {
    type V = Seq<Seq<Seq<char>>>;

    closed spec fn view(&self) -> Seq<Seq<Seq<char>>> {
        self.commands@.map_values(|c: Command<'a>| c@)
    }
}

impl<'a> Commands<'a> {
    pub closed spec fn mode(&self) -> ExecutionMode {
        self.execution_mode
    }

    pub fn new(commands: Vec<Command<'a>>, execution_mode: ExecutionMode) -> (r: Self)
        ensures
            r@ == commands@.map_values(|c: Command<'a>| c@),
            r.mode() == execution_mode,
    {
        Commands { commands, execution_mode }
    }

    pub fn commands(&self) -> (r: &Vec<Command<'a>>)
        ensures
            r@.map_values(|c: Command<'a>| c@) == self@,
    {
        &self.commands
    }

    pub fn execution_mode(&self) -> (r: ExecutionMode)
        ensures
            r == self.mode(),
    {
        self.execution_mode
    }
}

/// What one scan reads, and how its commands are to run.
#[derive(Debug)]
pub struct Options<'a> {
    content: &'a str,
    execute_from: Option<&'a str>,
    execute_until: Option<&'a str>,
    skip_commands: Option<&'a SkipPattern>,
    execution_mode: ExecutionMode,
}

impl<'a> Options<'a> {
    pub closed spec fn content(&self) -> Seq<char> {
        self.content@
    }

    pub closed spec fn config(&self) -> ScanConfig {
        ScanConfig {
            from: match self.execute_from {
                Some(f) => Some(f@),
                None => None,
            },
            until: match self.execute_until {
                Some(u) => Some(u@),
                None => None,
            },
            skip: match self.skip_commands {
                Some(p) => Some(p@),
                None => None,
            },
        }
    }

    pub closed spec fn mode(&self) -> ExecutionMode {
        self.execution_mode
    }

    pub fn new(content: &'a str) -> (r: Self)
        ensures
            r.content() == content@,
            r.config() == (ScanConfig { from: None, until: None, skip: None }),
            r.mode() == ExecutionMode::Default,
    {
        Options {
            content,
            execute_from: None,
            execute_until: None,
            skip_commands: None,
            execution_mode: ExecutionMode::Default,
        }
    }

    pub fn with_execute_from(self, execute_from: Option<&'a str>) -> (r: Self)
        ensures
            r.content() == self.content(),
            r.config() == (ScanConfig {
                from: match execute_from {
                    Some(f) => Some(f@),
                    None => None,
                },
                ..self.config()
            }),
            r.mode() == self.mode(),
    {
        Options { execute_from, ..self }
    }

    pub fn with_execute_until(self, execute_until: Option<&'a str>) -> (r: Self)
        ensures
            r.content() == self.content(),
            r.config() == (ScanConfig {
                until: match execute_until {
                    Some(u) => Some(u@),
                    None => None,
                },
                ..self.config()
            }),
            r.mode() == self.mode(),
    {
        Options { execute_until, ..self }
    }

    pub fn with_skip_commands(self, skip_commands: Option<&'a SkipPattern>) -> (r: Self)
        ensures
            r.content() == self.content(),
            r.config() == (ScanConfig {
                skip: match skip_commands {
                    Some(p) => Some(p@),
                    None => None,
                },
                ..self.config()
            }),
            r.mode() == self.mode(),
    {
        Options { skip_commands, ..self }
    }

    pub fn with_execution_mode(self, execution_mode: ExecutionMode) -> (r: Self)
        ensures
            r.content() == self.content(),
            r.config() == self.config(),
            r.mode() == execution_mode,
    {
        Options { execution_mode, ..self }
    }
}

/// The fixed tokens of the scan, as characters.
struct Tokens {
    fence_open: Vec<char>,
    fence_close: Vec<char>,
    prompt: Vec<char>,
    heredoc: Vec<char>,
    space: Vec<char>,
}

impl Tokens {
    spec fn wf(&self) -> bool {
        &&& self.fence_open@ == FENCE_OPEN@
        &&& self.fence_close@ == FENCE_CLOSE@
        &&& self.prompt@ == PROMPT@
        &&& self.heredoc@ == HEREDOC@
        &&& self.space@ == seq![' ']
    }

    fn new() -> (r: Tokens)
        ensures
            r.wf(),
    {
        let space = vec![' '];
        assert(space@ =~= seq![' ']);
        Tokens {
            fence_open: chars_of(FENCE_OPEN),
            fence_close: chars_of(FENCE_CLOSE),
            prompt: chars_of(PROMPT),
            heredoc: chars_of(HEREDOC),
            space,
        }
    }
}

/// The markers and the skip pattern of a scan, ready for use.
struct Bounds<'a> {
    from: Option<Vec<char>>,
    until: Option<Vec<char>>,
    skip: Option<&'a SkipPattern>,
}

impl<'a> Bounds<'a> {
    spec fn config(&self) -> ScanConfig {
        ScanConfig {
            from: match self.from {
                Some(f) => Some(f@),
                None => None,
            },
            until: match self.until {
                Some(u) => Some(u@),
                None => None,
            },
            skip: match self.skip {
                Some(p) => Some(p@),
                None => None,
            },
        }
    }
}

/// The lines joined with single spaces.
fn join_spaced_exec(lines: &Vec<&str>) -> (r: String)
    ensures
        r@ == join_spaced(lines@.map_values(|l: &str| l@)),
{
    let ghost views = lines@.map_values(|l: &str| l@);
    if lines.len() == 0 {
        return String::new();
    }
    let mut out = String::from_str(lines[0]);
    let mut i: usize = 1;
    assert(views.take(1).drop_last() =~= Seq::<Seq<char>>::empty());
    while i < lines.len()
        invariant
            1 <= i <= lines@.len(),
            views == lines@.map_values(|l: &str| l@),
            out@ == join_spaced(views.take(i as int)),
        decreases lines@.len() - i,
    {
        out.append(SPACE);
        out.append(lines[i]);
        assert(views.take(i + 1).drop_last() =~= views.take(i as int));
        i = i + 1;
    }
    assert(views.take(i as int) =~= views);
    out
}

struct Scanner<'a> {
    commands: Vec<Command<'a>>,
    buffer: Vec<&'a str>,
    block: Option<usize>,
    heredoc: Option<Vec<char>>,
    from_found: bool,
    until_found: bool,
}

impl<'a> View for Scanner<'a> {
    type V = ScanState;

    closed spec fn view(&self) -> ScanState {
        ScanState {
            commands: self.commands@.map_values(|c: Command<'a>| c@),
            buffer: self.buffer@.map_values(|l: &str| l@),
            block: match self.block {
                Some(c) => Some(c as int),
                None => None,
            },
            heredoc: match self.heredoc {
                Some(d) => Some(d@),
                None => None,
            },
            from_found: self.from_found,
            until_found: self.until_found,
        }
    }
}

impl<'a> Scanner<'a> {
    fn new() -> (r: Self)
        ensures
            r@ == initial_state(),
    {
        let r = Scanner {
            commands: Vec::new(),
            buffer: Vec::new(),
            block: None,
            heredoc: None,
            from_found: false,
            until_found: false,
        };
        assert(r@.commands =~= Seq::<Seq<Seq<char>>>::empty());
        assert(r@.buffer =~= Seq::<Seq<char>>::empty());
        r
    }

    /// Adds `piece` to the command being assembled.
    fn push_line(&mut self, piece: &'a str)
        ensures
            final(self)@ == (ScanState { buffer: old(self)@.buffer.push(piece@), ..old(self)@ }),
    {
        self.buffer.push(piece);
        assert(self@.buffer =~= old(self)@.buffer.push(piece@));
    }

    /// Completes the command being assembled; tells whether it was kept.
    fn seal(&mut self, b: &Bounds) -> (kept: bool)
        ensures
            final(self)@ == seal(old(self)@, old(self)@.buffer, b.config()),
            kept == !is_skipped(b.config(), old(self)@.buffer),
    {
        let skipped = match b.skip {
            Some(p) => {
                let joined = join_spaced_exec(&self.buffer);
                p.is_match(joined.as_str())
            },
            None => false,
        };
        let mut lines: Vec<&'a str> = Vec::new();
        std::mem::swap(&mut lines, &mut self.buffer);
        if !skipped {
            let command = Command { lines };
            self.commands.push(command);
            assert(self@.commands =~= old(self)@.commands.push(old(self)@.buffer));
        }
        assert(self@.buffer =~= Seq::<Seq<char>>::empty());
        !skipped
    }

    /// Reads the line of an open block that holds `cs[tb..end]`.
    fn read_block_line(
        &mut self,
        content: &'a str,
        cs: &Vec<char>,
        tb: usize,
        end: usize,
        b: &Bounds,
        t: &Tokens,
    ) -> (check: bool)
        requires
            content@ == cs@,
            tb <= end <= cs@.len(),
            t.wf(),
        ensures
            (final(self)@, check) == read_block_line(
                old(self)@,
                cs@.subrange(tb as int, end as int),
                b.config(),
            ),
    {
        let text = slice_of(cs, tb, end);
        if self.heredoc.is_some() {
            let closes = match &self.heredoc {
                Some(d) => seq_eq(&text, d),
                None => false,
            };
            let piece = content.substring_char(tb, end);
            self.push_line(piece);
            if closes {
                self.heredoc = None;
                self.seal(b);
            }
            return false;
        }
        let ts = if self.buffer.len() == 0 && starts_with_exec(&text, &t.prompt) {
            tb + t.prompt.len()
        } else {
            tb
        };
        let tt = slice_of(cs, ts, end);
        assert(tt@ == (if old(self)@.buffer.len() == 0 {
            strip_prompt(text@)
        } else {
            text@
        }));
        let piece = content.substring_char(ts, end);
        match find_exec(&tt, &t.heredoc) {
            Some(i) => {
                let rest = slice_of(&tt, i + t.heredoc.len(), tt.len());
                assert(rest@ =~= tt@.skip(i + HEREDOC@.len()));
                let trimmed = trim_exec(&rest);
                let d = match find_exec(&trimmed, &t.space) {
                    Some(j) => slice_of(&trimmed, 0, j),
                    None => trimmed,
                };
                self.push_line(piece);
                self.heredoc = Some(d);
                return false;
            },
            None => {},
        }
        if tt.len() > 0 && tt[tt.len() - 1] == '\\' {
            self.push_line(piece);
            return false;
        }
        self.push_line(piece);
        self.seal(b)
    }

    /// Reads the line `cs[start..end]`.
    fn step(&mut self, content: &'a str, cs: &Vec<char>, start: usize, end: usize, b: &Bounds, t: &Tokens)
        requires
            content@ == cs@,
            start <= end <= cs@.len(),
            t.wf(),
        ensures
            final(self)@ == step(old(self)@, cs@.subrange(start as int, end as int), b.config()),
    {
        let line = slice_of(cs, start, end);
        match find_exec(&line, &t.fence_open) {
            Some(col) => {
                self.block = Some(col);
                return ;
            },
            None => {},
        }
        match self.block {
            Some(col) => {
                if col < line.len() {
                    let tail = slice_of(&line, col, line.len());
                    if seq_eq(&tail, &t.fence_close) {
                        self.block = None;
                        return ;
                    }
                }
            },
            None => {},
        }
        let trimmed = trim_exec(&line);
        match &b.from {
            Some(f) => {
                if !self.from_found && !eq_ignore_ascii_case_exec(&trimmed, f) {
                    return ;
                }
                self.from_found = true;
            },
            None => {},
        }
        let check = match self.block {
            Some(col) => {
                let tb = if col < line.len() {
                    start + col
                } else {
                    end
                };
                assert(cs@.subrange(tb as int, end as int) =~= block_text(line@, col as int));
                self.read_block_line(content, cs, tb, end, b, t)
            },
            None => true,
        };
        if check {
            match &b.until {
                Some(u) => {
                    if eq_ignore_ascii_case_exec(&trimmed, u) {
                        self.until_found = true;
                    }
                },
                None => {},
            }
        }
    }
}

/// Once the last marker has been found, further lines change nothing.
pub proof fn lemma_scan_stopped(done: Seq<Seq<char>>, rest: Seq<Seq<char>>, cfg: ScanConfig)
    requires
        scan(done, cfg).until_found,
    ensures
        scan(done + rest, cfg) == scan(done, cfg),
    decreases rest.len(),
{
    if rest.len() == 0 {
        assert(done + rest =~= done);
    } else {
        lemma_scan_stopped(done, rest.drop_last(), cfg);
        assert((done + rest).drop_last() =~= done + rest.drop_last());
    }
}

fn from_message(from: &str) -> (r: String)
    ensures
        r@ == from_not_found_message(from@),
{
    let mut m = String::from_str(FROM_NOT_FOUND);
    m.append(from);
    m.append(CLOSING_QUOTE);
    m
}

fn until_message(until: &str) -> (r: String)
    ensures
        r@ == until_not_found_message(until@),
{
    let mut m = String::from_str(UNTIL_NOT_FOUND);
    m.append(until);
    m.append(CLOSING_QUOTE);
    m
}

fn until_after_from(until: &str, from: &str) -> (r: String)
    ensures
        r@ == until_after_from_message(until@, from@),
{
    let mut m = String::from_str(UNTIL_NOT_FOUND);
    m.append(until);
    m.append(AFTER_FROM);
    m.append(from);
    m.append(CLOSING_QUOTE);
    m
}

impl<'a> Commands<'a> {
    /// The commands of the options' text, or the error for a marker that no
    /// line matched.
    pub fn parse(options: &'a Options<'a>) -> (r: Result<Commands<'a>, ParserError>)
        ensures
            match r {
                Ok(c) => parse_outcome(options.content(), options.config()) == Ok::<
                    _,
                    Seq<char>,
                >(c@) && c.mode() == options.mode(),
                Err(e) => parse_outcome(options.content(), options.config()) == Err::<
                    Seq<Seq<Seq<char>>>,
                    _,
                >(e@),
            },
    {
        let content = options.content;
        let cs = chars_of(content);
        let t = Tokens::new();
        let b = Bounds {
            from: match options.execute_from {
                Some(f) => Some(chars_of(f)),
                None => None,
            },
            until: match options.execute_until {
                Some(u) => Some(chars_of(u)),
                None => None,
            },
            skip: options.skip_commands,
        };
        let ghost cfg = options.config();
        assert(b.config() == cfg);
        let mut sc = Scanner::new();
        let mut pos: usize = 0;
        let ghost mut done: Seq<Seq<char>> = Seq::empty();
        assert(done + lines_from(cs@, 0) =~= lines_of(cs@));
        loop
            invariant_except_break
                pos <= cs@.len(),
                done + lines_from(cs@, pos as int) == lines_of(cs@),
                sc@ == scan(done, cfg),
                !sc@.until_found,
            invariant
                content@ == cs@,
                t.wf(),
                b.config() == cfg,
            ensures
                sc@ == scan(lines_of(cs@), cfg),
            decreases cs@.len() - pos,
        {
            if pos >= cs.len() {
                assert(done =~= lines_of(cs@));
                break;
            }
            let e = line_end_exec(&cs, pos);
            let end = if e < cs.len() && e > pos && cs[e - 1] == '\r' {
                e - 1
            } else {
                e
            };
            let next = if e < cs.len() {
                e + 1
            } else {
                cs.len()
            };
            let ghost line = cs@.subrange(pos as int, end as int);
            proof {
                lemma_line_end_bounds(cs@, pos as int);
                let raw = cs@.subrange(pos as int, e as int);
                if e < cs@.len() && e > pos && cs@[e - 1] == '\r' {
                    assert(raw.drop_last() =~= line);
                }
                assert(line == (if e < cs@.len() {
                    strip_cr(raw)
                } else {
                    raw
                }));
                assert(lines_from(cs@, pos as int) == seq![line] + lines_from(cs@, next as int));
                assert(done + lines_from(cs@, pos as int) =~= done.push(line) + lines_from(
                    cs@,
                    next as int,
                ));
                assert(done.push(line).drop_last() =~= done);
            }
            sc.step(content, &cs, pos, end, &b, &t);
            proof {
                done = done.push(line);
            }
            if sc.until_found {
                proof {
                    lemma_scan_stopped(done, lines_from(cs@, next as int), cfg);
                }
                break;
            }
            pos = next;
        }
        match options.execute_from {
            Some(f) => {
                if !sc.from_found {
                    return Err(ParserError::new(from_message(f)));
                }
            },
            None => {},
        }
        match options.execute_until {
            Some(u) => {
                if !sc.until_found {
                    let message = match options.execute_from {
                        Some(f) => until_after_from(u, f),
                        None => until_message(u),
                    };
                    return Err(ParserError::new(message));
                }
            },
            None => {},
        }
        Ok(Commands { commands: sc.commands, execution_mode: options.execution_mode })
    }
}

/// Appends the lines of `c`, one per line of text.
fn push_command(out: &mut String, c: &Command)
    ensures
        final(out)@ == old(out)@ + render_command(c@),
{
    let ghost start = out@;
    let ghost v = c@;
    let mut i: usize = 0;
    assert(v.take(0) =~= Seq::<Seq<char>>::empty());
    while i < c.lines.len()
        invariant
            v == c@,
            i <= v.len(),
            out@ == start + render_command(v.take(i as int)),
        decreases v.len() - i,
    {
        if i > 0 {
            out.append(NEWLINE);
        }
        out.append(c.lines[i]);
        assert(v.take(i + 1).drop_last() =~= v.take(i as int));
        i = i + 1;
        assert(out@ =~= start + render_command(v.take(i as int)));
    }
    assert(v.take(i as int) =~= v);
}

/// Appends the function that confirms, then runs, `command`, and its call.
fn push_confirm_block(out: &mut String, index: usize, command: &Command)
    ensures
        final(out)@ == old(out)@ + confirm_block(index as nat, command@),
{
    let ghost start = out@;
    out.append(CONFIRM_OPEN);
    push_decimal(out, index as u128);
    out.append(CONFIRM_SHOW);
    if command.lines.len() > 0 {
        push_doubling_quotes(out, command.lines[0]);
    } else {
        push_doubling_quotes(out, MISSING_COMMAND);
    }
    assert(out@ =~= start + CONFIRM_OPEN@ + crate::script::decimal(index as nat) + CONFIRM_SHOW@
        + shown_text(command@));
    out.append(CONFIRM_ASK);
    push_command(out, command);
    out.append(CONFIRM_CLOSE);
    push_decimal(out, index as u128);
    out.append(CONFIRM_END);
    assert(out@ =~= start + confirm_block(index as nat, command@));
}

impl<'a> Command<'a> {
    /// The command's lines, one per line of text.
    pub fn to_string(&self) -> (r: String)
        ensures
            r@ == render_command(self@),
    {
        let mut out = String::new();
        push_command(&mut out, self);
        out
    }
}

impl<'a> Commands<'a> {
    /// Each command followed by a line ending.
    pub fn to_string(&self) -> (r: String)
        ensures
            r@ == default_body(self@),
    {
        let mut out = String::new();
        self.push_default_body(&mut out);
        out
    }

    fn push_default_body(&self, out: &mut String)
        ensures
            final(out)@ == old(out)@ + default_body(self@),
    {
        let ghost start = out@;
        let ghost v = self@;
        let mut i: usize = 0;
        assert(v.take(0) =~= Seq::<Seq<Seq<char>>>::empty());
        while i < self.commands.len()
            invariant
                v == self@,
                i <= v.len(),
                out@ == start + default_body(v.take(i as int)),
            decreases v.len() - i,
        {
            push_command(out, &self.commands[i]);
            out.append(NEWLINE);
            assert(v.take(i + 1).drop_last() =~= v.take(i as int));
            i = i + 1;
            assert(out@ =~= start + default_body(v.take(i as int)));
        }
        assert(v.take(i as int) =~= v);
    }

    fn push_delayed_body(&self, out: &mut String, millis: u32)
        ensures
            final(out)@ == old(out)@ + delayed_body(self@, millis as nat),
    {
        let ghost start = out@;
        let ghost v = self@;
        let mut i: usize = 0;
        assert(v.take(0) =~= Seq::<Seq<Seq<char>>>::empty());
        while i < self.commands.len()
            invariant
                v == self@,
                i <= v.len(),
                out@ == start + delayed_body(v.take(i as int), millis as nat),
            decreases v.len() - i,
        {
            if i > 0 {
                out.append(SLEEP);
                push_decimal(out, millis as u128);
                out.append(NEWLINE);
            }
            push_command(out, &self.commands[i]);
            out.append(NEWLINE);
            assert(v.take(i + 1).drop_last() =~= v.take(i as int));
            i = i + 1;
            assert(out@ =~= start + delayed_body(v.take(i as int), millis as nat));
        }
        assert(v.take(i as int) =~= v);
    }

    fn push_interactive_blocks(&self, out: &mut String)
        ensures
            final(out)@ == old(out)@ + interactive_blocks(self@),
    {
        let ghost start = out@;
        let ghost v = self@;
        let mut i: usize = 0;
        assert(v.take(0) =~= Seq::<Seq<Seq<char>>>::empty());
        while i < self.commands.len()
            invariant
                v == self@,
                i <= v.len(),
                out@ == start + interactive_blocks(v.take(i as int)),
            decreases v.len() - i,
        {
            let command = &self.commands[i];
            push_confirm_block(out, i, command);
            assert(v.take(i + 1).drop_last() =~= v.take(i as int));
            assert(v.take(i + 1).last() == command@);
            i = i + 1;
            assert(out@ =~= start + interactive_blocks(v.take(i as int)));
        }
        assert(v.take(i as int) =~= v);
    }

    /// The shell script that runs the commands in their execution mode.
    pub fn as_shell_script(&self) -> (r: String)
        ensures
            r@ == script_text(self@, self.mode()),
    {
        let mut out = String::from_str(PREAMBLE);
        match self.execution_mode {
            ExecutionMode::Default => {
                self.push_default_body(&mut out);
            },
            ExecutionMode::DelayBetweenCommands(millis) => {
                self.push_delayed_body(&mut out, millis);
            },
            ExecutionMode::Interactive => {
                out.append(INTERACTIVE_HEADER);
                self.push_interactive_blocks(&mut out);
            },
        }
        out
    }
}

} // verus!
