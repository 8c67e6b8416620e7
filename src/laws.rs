//! Properties of the scan and of the script text, proved over their models.
use crate::command::{
    block_text, closes_fence, continues, join_spaced, fence_column, from_not_found_message, heredoc_delimiter,
    initial_state, is_marker, parse_outcome, read_block_line, scan, seal, step, strip_prompt, until_after_from_message, ScanConfig, ScanState,
    FENCE_CLOSE,
};
use crate::pattern::regex_finds;
use crate::script::{decimal, delayed_body, render_command, NEWLINE, SLEEP};
use crate::text::{ends_with, lines_of};
use vstd::prelude::*;

verus! {

/// A scan of lines none of which opens a block keeps no command and opens no block.
proof fn lemma_scan_without_fence(lines: Seq<Seq<char>>, cfg: ScanConfig)
    requires
        forall|i: int| 0 <= i < lines.len() ==> fence_column(#[trigger] lines[i]) is None,
    ensures
        scan(lines, cfg).commands.len() == 0,
        scan(lines, cfg).block is None,
    decreases lines.len(),
{
    if lines.len() > 0 {
        let prefix = lines.drop_last();
        assert forall|i: int| 0 <= i < prefix.len() implies fence_column(
            #[trigger] prefix[i],
        ) is None by {
            assert(prefix[i] == lines[i]);
        }
        lemma_scan_without_fence(prefix, cfg);
        assert(fence_column(lines[lines.len() - 1]) is None);
    }
}

/// A text in which no line opens a block of shell commands yields no command,
/// whatever the markers and the skip pattern; without markers it yields the
/// empty list.
pub proof fn lemma_no_fence_no_commands(content: Seq<char>, cfg: ScanConfig)
    requires
        forall|i: int|
            0 <= i < lines_of(content).len() ==> fence_column(#[trigger] lines_of(content)[i])
                is None,
    ensures
        parse_outcome(content, cfg) matches Ok(commands) ==> commands.len() == 0,
        cfg.from is None && cfg.until is None ==> parse_outcome(content, cfg) == Ok::<
            _,
            Seq<char>,
        >(Seq::<Seq<Seq<char>>>::empty()),
{
    lemma_scan_without_fence(lines_of(content), cfg);
    if cfg.from is None && cfg.until is None {
        assert(scan(lines_of(content), cfg).commands =~= Seq::<Seq<Seq<char>>>::empty());
    }
}

/// When no line matches the first marker, nothing is read and the last marker
/// is never found.
proof fn lemma_scan_from_missing(lines: Seq<Seq<char>>, cfg: ScanConfig)
    requires
        cfg.from is Some,
        forall|i: int| 0 <= i < lines.len() ==> !is_marker(#[trigger] lines[i], cfg.from->0),
    ensures
        !scan(lines, cfg).from_found,
        !scan(lines, cfg).until_found,
    decreases lines.len(),
{
    if lines.len() > 0 {
        let prefix = lines.drop_last();
        assert forall|i: int| 0 <= i < prefix.len() implies !is_marker(
            #[trigger] prefix[i],
            cfg.from->0,
        ) by {
            assert(prefix[i] == lines[i]);
        }
        lemma_scan_from_missing(prefix, cfg);
        assert(!is_marker(lines[lines.len() - 1], cfg.from->0));
    }
}

/// A first marker that no line matches makes the scan fail with the error that
/// names it.
pub proof fn lemma_from_not_found(content: Seq<char>, cfg: ScanConfig)
    requires
        cfg.from is Some,
        forall|i: int|
            0 <= i < lines_of(content).len() ==> !is_marker(
                #[trigger] lines_of(content)[i],
                cfg.from->0,
            ),
    ensures
        parse_outcome(content, cfg) == Err::<Seq<Seq<Seq<char>>>, _>(
            from_not_found_message(cfg.from->0),
        ),
{
    lemma_scan_from_missing(lines_of(content), cfg);
}

/// When no line matches the last marker the scan reads every line, and once a
/// line that is no fence has matched the first marker, the first marker stays
/// found.
proof fn lemma_scan_until_missing(lines: Seq<Seq<char>>, cfg: ScanConfig, k: int)
    requires
        cfg.from is Some,
        cfg.until is Some,
        forall|i: int| 0 <= i < lines.len() ==> !is_marker(#[trigger] lines[i], cfg.until->0),
        0 <= k < lines.len(),
        is_marker(lines[k], cfg.from->0),
        fence_column(lines[k]) is None,
        !ends_with(lines[k], FENCE_CLOSE@),
    ensures
        !scan(lines, cfg).until_found,
        scan(lines, cfg).from_found,
    decreases lines.len(),
{
    let prefix = lines.drop_last();
    assert forall|i: int| 0 <= i < prefix.len() implies !is_marker(
        #[trigger] prefix[i],
        cfg.until->0,
    ) by {
        assert(prefix[i] == lines[i]);
    }
    let last = lines[lines.len() - 1];
    assert(!is_marker(last, cfg.until->0));
    if k < prefix.len() {
        assert(prefix[k] == lines[k]);
        lemma_scan_until_missing(prefix, cfg, k);
    } else {
        lemma_scan_never_until(prefix, cfg);
        let st = scan(prefix, cfg);
        if st.block is Some && closes_fence(last, st.block->0) {
            let col = st.block->0;
            assert(last.subrange(last.len() - FENCE_CLOSE@.len(), last.len() as int)
                =~= last.subrange(col, last.len() as int));
        }
    }
}

/// When no line matches the last marker, the scan never finds it.
proof fn lemma_scan_never_until(lines: Seq<Seq<char>>, cfg: ScanConfig)
    requires
        cfg.until is Some,
        forall|i: int| 0 <= i < lines.len() ==> !is_marker(#[trigger] lines[i], cfg.until->0),
    ensures
        !scan(lines, cfg).until_found,
    decreases lines.len(),
{
    if lines.len() > 0 {
        let prefix = lines.drop_last();
        assert forall|i: int| 0 <= i < prefix.len() implies !is_marker(
            #[trigger] prefix[i],
            cfg.until->0,
        ) by {
            assert(prefix[i] == lines[i]);
        }
        lemma_scan_never_until(prefix, cfg);
        assert(!is_marker(lines[lines.len() - 1], cfg.until->0));
    }
}

/// With both markers set, a last marker that no line matches, and a first
/// marker that matches a line which is no fence, the scan fails with the error
/// that names both markers.
pub proof fn lemma_until_not_found_after_from(content: Seq<char>, cfg: ScanConfig, k: int)
    requires
        cfg.from is Some,
        cfg.until is Some,
        forall|i: int|
            0 <= i < lines_of(content).len() ==> !is_marker(
                #[trigger] lines_of(content)[i],
                cfg.until->0,
            ),
        0 <= k < lines_of(content).len(),
        is_marker(lines_of(content)[k], cfg.from->0),
        fence_column(lines_of(content)[k]) is None,
        !ends_with(lines_of(content)[k], FENCE_CLOSE@),
    ensures
        parse_outcome(content, cfg) == Err::<Seq<Seq<Seq<char>>>, _>(
            until_after_from_message(cfg.until->0, cfg.from->0),
        ),
{
    lemma_scan_until_missing(lines_of(content), cfg, k);
}

/// No markers and no skip pattern.
pub open spec fn no_bounds() -> ScanConfig {
    ScanConfig { from: None, until: None, skip: None }
}

/// `lines` are one block: `open` opens it at column `col`, `close` closes it,
/// and no line of `body` does either.
pub open spec fn one_block(
    lines: Seq<Seq<char>>,
    open: Seq<char>,
    body: Seq<Seq<char>>,
    close: Seq<char>,
    col: int,
) -> bool {
    &&& lines == seq![open] + body + seq![close]
    &&& fence_column(open) == Some(col)
    &&& fence_column(close) is None
    &&& closes_fence(close, col)
    &&& forall|i: int|
        0 <= i < body.len() ==> fence_column(#[trigger] body[i]) is None && !closes_fence(
            body[i],
            col,
        )
}

/// The state inside a block at column `col`, with `commands` kept and no
/// command being assembled.
pub open spec fn in_block(commands: Seq<Seq<Seq<char>>>, col: int) -> ScanState {
    ScanState {
        commands,
        buffer: Seq::empty(),
        block: Some(col),
        heredoc: None,
        from_found: false,
        until_found: false,
    }
}

/// A line of a block that is a whole command by itself.
pub open spec fn single_line(line: Seq<char>, col: int) -> bool {
    &&& heredoc_delimiter(strip_prompt(block_text(line, col))) is None
    &&& !continues(strip_prompt(block_text(line, col)))
}

/// Each line of `body` as a command of its own, read from column `col` and
/// without its prompt.
pub open spec fn single_commands(body: Seq<Seq<char>>, col: int) -> Seq<Seq<Seq<char>>>
    decreases body.len(),
{
    if body.len() == 0 {
        Seq::empty()
    } else {
        single_commands(body.drop_last(), col).push(seq![strip_prompt(block_text(body.last(), col))])
    }
}

proof fn lemma_single_lines_prefix(
    lines: Seq<Seq<char>>,
    open: Seq<char>,
    body: Seq<Seq<char>>,
    close: Seq<char>,
    col: int,
    k: int,
)
    requires
        one_block(lines, open, body, close, col),
        forall|i: int| 0 <= i < body.len() ==> single_line(#[trigger] body[i], col),
        0 <= k <= body.len(),
    ensures
        scan(lines.take(k + 1), no_bounds()) == in_block(single_commands(body.take(k), col), col),
    decreases k,
{
    let cfg = no_bounds();
    if k == 0 {
        assert(lines.take(1).drop_last() =~= Seq::<Seq<char>>::empty());
        assert(lines.take(1).last() == open);
        assert(body.take(0) =~= Seq::<Seq<char>>::empty());
        assert(scan(lines.take(1).drop_last(), cfg) == initial_state());
        assert(scan(lines.take(1), cfg) == step(initial_state(), open, cfg));
        assert(scan(lines.take(1), cfg) == in_block(Seq::empty(), col));
    } else {
        lemma_single_lines_prefix(lines, open, body, close, col, k - 1);
        let st = scan(lines.take(k), cfg);
        let l = body[k - 1];
        assert(lines.take(k + 1).drop_last() =~= lines.take(k));
        assert(lines.take(k + 1).last() == l);
        assert(single_line(l, col));
        assert(fence_column(l) is None);
        assert(!closes_fence(l, col));
        let t = strip_prompt(block_text(l, col));
        let command = st.buffer.push(t);
        assert(command =~= seq![t]);
        assert(read_block_line(st, block_text(l, col), cfg) == (seal(st, command, cfg), true));
        assert(step(st, l, cfg) == seal(st, command, cfg));
        assert(body.take(k).drop_last() =~= body.take(k - 1));
        assert(single_commands(body.take(k), col) == single_commands(body.take(k - 1), col).push(
            seq![t],
        ));
    }
}

/// In one block of single-line commands, each line is one command, in the
/// order of the text, read from the block's column and without its prompt.
pub proof fn lemma_single_line_commands(
    content: Seq<char>,
    open: Seq<char>,
    body: Seq<Seq<char>>,
    close: Seq<char>,
    col: int,
)
    requires
        one_block(lines_of(content), open, body, close, col),
        forall|i: int| 0 <= i < body.len() ==> single_line(#[trigger] body[i], col),
    ensures
        parse_outcome(content, no_bounds()) == Ok::<_, Seq<char>>(single_commands(body, col)),
{
    let lines = lines_of(content);
    lemma_single_lines_prefix(lines, open, body, close, col, body.len() as int);
    assert(lines.drop_last() =~= lines.take(body.len() as int + 1));
    assert(body.take(body.len() as int) =~= body);
}

/// The lines of `body` as one command: read from column `col`, the first
/// without its prompt.
pub open spec fn assembled(body: Seq<Seq<char>>, col: int) -> Seq<Seq<char>> {
    Seq::new(
        body.len(),
        |i: int|
            if i == 0 {
                strip_prompt(block_text(body[0], col))
            } else {
                block_text(body[i], col)
            },
    )
}

/// Inside a block at column `col`, with no command kept yet, `buffer` assembled
/// and `heredoc` open or not.
pub open spec fn assembling(
    buffer: Seq<Seq<char>>,
    heredoc: Option<Seq<char>>,
    col: int,
) -> ScanState {
    ScanState {
        commands: Seq::empty(),
        buffer,
        block: Some(col),
        heredoc,
        from_found: false,
        until_found: false,
    }
}

proof fn lemma_block_opens(
    lines: Seq<Seq<char>>,
    open: Seq<char>,
    body: Seq<Seq<char>>,
    close: Seq<char>,
    col: int,
)
    requires
        one_block(lines, open, body, close, col),
    ensures
        scan(lines.take(1), no_bounds()) == assembling(Seq::empty(), None, col),
{
    assert(lines.take(1).drop_last() =~= Seq::<Seq<char>>::empty());
    assert(scan(lines.take(1).drop_last(), no_bounds()) == initial_state());
    assert(lines.take(1).last() == open);
}

proof fn lemma_continued_prefix(
    lines: Seq<Seq<char>>,
    open: Seq<char>,
    body: Seq<Seq<char>>,
    close: Seq<char>,
    col: int,
    k: int,
)
    requires
        one_block(lines, open, body, close, col),
        body.len() >= 1,
        forall|i: int|
            0 <= i < body.len() ==> heredoc_delimiter(#[trigger] assembled(body, col)[i]) is None,
        forall|i: int| 0 <= i < body.len() - 1 ==> continues(#[trigger] assembled(body, col)[i]),
        0 <= k < body.len(),
    ensures
        scan(lines.take(k + 1), no_bounds()) == assembling(assembled(body, col).take(k), None, col),
    decreases k,
{
    let a = assembled(body, col);
    if k == 0 {
        lemma_block_opens(lines, open, body, close, col);
        assert(a.take(0) =~= Seq::<Seq<char>>::empty());
    } else {
        lemma_continued_prefix(lines, open, body, close, col, k - 1);
        let l = body[k - 1];
        assert(lines.take(k + 1).drop_last() =~= lines.take(k));
        assert(lines.take(k + 1).last() == l);
        assert(fence_column(l) is None && !closes_fence(l, col));
        assert(heredoc_delimiter(a[k - 1]) is None);
        assert(continues(a[k - 1]));
        assert(a.take(k) =~= a.take(k - 1).push(a[k - 1]));
        if k == 1 {
            assert(a.take(0) =~= Seq::<Seq<char>>::empty());
        }
    }
}

/// Lines joined by trailing backslashes make one command that holds each of
/// them, as they stand, read from the block's column and the first without its
/// prompt.
pub proof fn lemma_continued_command(
    content: Seq<char>,
    open: Seq<char>,
    body: Seq<Seq<char>>,
    close: Seq<char>,
    col: int,
)
    requires
        one_block(lines_of(content), open, body, close, col),
        body.len() >= 1,
        forall|i: int|
            0 <= i < body.len() ==> heredoc_delimiter(#[trigger] assembled(body, col)[i]) is None,
        forall|i: int| 0 <= i < body.len() - 1 ==> continues(#[trigger] assembled(body, col)[i]),
        !continues(assembled(body, col)[body.len() - 1]),
    ensures
        parse_outcome(content, no_bounds()) == Ok::<_, Seq<char>>(seq![assembled(body, col)]),
{
    let lines = lines_of(content);
    let a = assembled(body, col);
    let n = body.len() as int;
    lemma_continued_prefix(lines, open, body, close, col, n - 1);
    let l = body[n - 1];
    assert(lines.take(n + 1).drop_last() =~= lines.take(n));
    assert(lines.take(n + 1).last() == l);
    assert(fence_column(l) is None && !closes_fence(l, col));
    assert(heredoc_delimiter(a[n - 1]) is None);
    assert(a.take(n - 1).push(a[n - 1]) =~= a);
    if n == 1 {
        assert(a.take(0) =~= Seq::<Seq<char>>::empty());
    }
    assert(scan(lines.take(n + 1), no_bounds()) == in_block(seq![a], col));
    assert(lines.drop_last() =~= lines.take(n + 1));
    assert(lines.last() == close);
}

proof fn lemma_heredoc_prefix(
    lines: Seq<Seq<char>>,
    open: Seq<char>,
    body: Seq<Seq<char>>,
    close: Seq<char>,
    col: int,
    delimiter: Seq<char>,
    k: int,
)
    requires
        one_block(lines, open, body, close, col),
        body.len() >= 2,
        heredoc_delimiter(assembled(body, col)[0]) == Some(delimiter),
        forall|i: int| 0 < i < body.len() - 1 ==> #[trigger] assembled(body, col)[i] != delimiter,
        1 <= k < body.len(),
    ensures
        scan(lines.take(k + 1), no_bounds()) == assembling(
            assembled(body, col).take(k),
            Some(delimiter),
            col,
        ),
    decreases k,
{
    let a = assembled(body, col);
    let l = body[k - 1];
    assert(lines.take(k + 1).drop_last() =~= lines.take(k));
    assert(lines.take(k + 1).last() == l);
    assert(fence_column(l) is None && !closes_fence(l, col));
    assert(a.take(k) =~= a.take(k - 1).push(a[k - 1]));
    if k == 1 {
        lemma_block_opens(lines, open, body, close, col);
        assert(a.take(0) =~= Seq::<Seq<char>>::empty());
    } else {
        lemma_heredoc_prefix(lines, open, body, close, col, delimiter, k - 1);
        assert(a[k - 1] != delimiter);
    }
}

/// A here-document is one command: every line from the one that opens it
/// through the one equal to its delimiter, as they stand but for the block's
/// column, and the first without its prompt.
pub proof fn lemma_heredoc_command(
    content: Seq<char>,
    open: Seq<char>,
    body: Seq<Seq<char>>,
    close: Seq<char>,
    col: int,
    delimiter: Seq<char>,
)
    requires
        one_block(lines_of(content), open, body, close, col),
        body.len() >= 2,
        heredoc_delimiter(assembled(body, col)[0]) == Some(delimiter),
        forall|i: int| 0 < i < body.len() - 1 ==> #[trigger] assembled(body, col)[i] != delimiter,
        assembled(body, col)[body.len() - 1] == delimiter,
    ensures
        parse_outcome(content, no_bounds()) == Ok::<_, Seq<char>>(seq![assembled(body, col)]),
{
    let lines = lines_of(content);
    let a = assembled(body, col);
    let n = body.len() as int;
    lemma_heredoc_prefix(lines, open, body, close, col, delimiter, n - 1);
    let l = body[n - 1];
    assert(lines.take(n + 1).drop_last() =~= lines.take(n));
    assert(lines.take(n + 1).last() == l);
    assert(fence_column(l) is None && !closes_fence(l, col));
    assert(a.take(n - 1).push(a[n - 1]) =~= a);
    assert(scan(lines.take(n + 1), no_bounds()) == in_block(seq![a], col));
    assert(lines.drop_last() =~= lines.take(n + 1));
    assert(lines.last() == close);
}

/// The commands that a skip pattern `p` keeps: those it does not match once
/// their lines are joined with spaces.
pub open spec fn kept_by(p: Seq<char>) -> spec_fn(Seq<Seq<char>>) -> bool {
    |c: Seq<Seq<char>>| !regex_finds(p, join_spaced(c))
}

/// Two scans in step, one with the skip pattern `p` and one without.
pub open spec fn skip_related(with: ScanState, without: ScanState, p: Seq<char>) -> bool {
    &&& with.buffer == without.buffer
    &&& with.block == without.block
    &&& with.heredoc == without.heredoc
    &&& with.from_found == without.from_found
    &&& !with.until_found
    &&& !without.until_found
    &&& with.commands == without.commands.filter(kept_by(p))
}

proof fn lemma_step_skip_related(
    with: ScanState,
    without: ScanState,
    line: Seq<char>,
    from: Option<Seq<char>>,
    p: Seq<char>,
)
    requires
        skip_related(with, without, p),
    ensures
        skip_related(
            step(with, line, ScanConfig { from, until: None, skip: Some(p) }),
            step(without, line, ScanConfig { from, until: None, skip: None }),
            p,
        ),
{
    let col = with.block->0;
    let text = block_text(line, col);
    without.commands.lemma_filter_push(without.buffer.push(text), kept_by(p));
    without.commands.lemma_filter_push(without.buffer.push(strip_prompt(text)), kept_by(p));
}

proof fn lemma_scan_skip_related(lines: Seq<Seq<char>>, from: Option<Seq<char>>, p: Seq<char>)
    ensures
        skip_related(
            scan(lines, ScanConfig { from, until: None, skip: Some(p) }),
            scan(lines, ScanConfig { from, until: None, skip: None }),
            p,
        ),
    decreases lines.len(),
{
    if lines.len() == 0 {
        assert(Seq::<Seq<Seq<char>>>::empty().filter(kept_by(p)) =~= Seq::<
            Seq<Seq<char>>,
        >::empty());
    } else {
        lemma_scan_skip_related(lines.drop_last(), from, p);
        lemma_step_skip_related(
            scan(lines.drop_last(), ScanConfig { from, until: None, skip: Some(p) }),
            scan(lines.drop_last(), ScanConfig { from, until: None, skip: None }),
            lines.last(),
            from,
            p,
        );
    }
}

/// Without a last marker, a skip pattern leaves out exactly the commands it
/// matches, once their lines are joined with spaces: the others stay, in their
/// order, and the outcome is otherwise the same.
pub proof fn lemma_skip_filters(content: Seq<char>, from: Option<Seq<char>>, p: Seq<char>)
    ensures
        parse_outcome(content, ScanConfig { from, until: None, skip: Some(p) }) == match parse_outcome(
            content,
            ScanConfig { from, until: None, skip: None },
        ) {
            Ok(commands) => Ok(commands.filter(kept_by(p))),
            Err(e) => Err(e),
        },
{
    lemma_scan_skip_related(lines_of(content), from, p);
}

/// Three commands run with a delay have a pause between the first and the
/// second and between the second and the third, and no other.
pub proof fn lemma_delay_between_three(
    a: Seq<Seq<char>>,
    b: Seq<Seq<char>>,
    c: Seq<Seq<char>>,
    millis: nat,
)
    ensures
        delayed_body(seq![a, b, c], millis) == render_command(a) + NEWLINE@ + SLEEP@ + decimal(
            millis,
        ) + NEWLINE@ + render_command(b) + NEWLINE@ + SLEEP@ + decimal(millis) + NEWLINE@
            + render_command(c) + NEWLINE@,
{
    assert(seq![a, b, c].drop_last() =~= seq![a, b]);
    assert(seq![a, b].drop_last() =~= seq![a]);
    assert(delayed_body(seq![a], millis) == render_command(a) + NEWLINE@);
    assert(delayed_body(seq![a, b], millis) == render_command(a) + NEWLINE@ + SLEEP@ + decimal(
        millis,
    ) + NEWLINE@ + render_command(b) + NEWLINE@);
}

} // verus!
