use vstd::prelude::*;

use crate::parser::{BlockModel, CodeBlock, blocks_model};
use crate::text::{trim, trimmed};

verus! {

/// The length of `echo(String(`, the text put before an expression.
pub const ECHO_PREFIX_LEN: usize = 12;

/// `n`, or the nearest value that an `i32` holds.
pub open spec fn clamp_i32(n: int) -> i32 {
    if n > i32::MAX {
        i32::MAX
    } else if n < i32::MIN {
        i32::MIN
    } else {
        n as i32
    }
}

/// The script that writes the value of an expression.
pub open spec fn expression_source(content: Seq<char>) -> Seq<char> {
    "echo(String("@ + trim(content) + "));"@
}

/// The source, line offset and column offset under which a script or
/// expression block runs, so that the engine reports positions in the document.
pub open spec fn run_of(b: BlockModel) -> (Seq<char>, i32, i32) {
    match b {
        BlockModel::Expression(c) => (
            expression_source(c.content),
            clamp_i32(c.lineno - 1),
            clamp_i32(c.colno - 1 - ECHO_PREFIX_LEN),
        ),
        BlockModel::Javascript(c) => (c.content, clamp_i32(c.lineno - 1), clamp_i32(c.colno - 1)),
        // literal text is appended directly and never run
        BlockModel::Html(c) => (c.content, 0, 0),
    }
}

/// What the echo calls made while block `k` ran wrote, in call order.
pub open spec fn echoed(calls: Seq<(nat, Seq<char>)>, k: nat) -> Seq<char>
    decreases calls.len(),
{
    if calls.len() == 0 {
        Seq::empty()
    } else {
        echoed(calls.drop_last(), k) + if calls.last().0 == k {
            calls.last().1
        } else {
            Seq::empty()
        }
    }
}

/// What block `k` contributes to the body: literal text as it stands, or what
/// its echo calls wrote.
pub open spec fn block_output(b: BlockModel, k: nat, calls: Seq<(nat, Seq<char>)>) -> Seq<char> {
    match b {
        BlockModel::Html(c) => c.content,
        _ => echoed(calls, k),
    }
}

/// The contributions of the first `n` blocks, in block order.
pub open spec fn output_upto(blocks: Seq<BlockModel>, calls: Seq<(nat, Seq<char>)>, n: nat) -> Seq<
    char,
>
    decreases n,
{
    if n == 0 {
        Seq::empty()
    } else {
        output_upto(blocks, calls, (n - 1) as nat) + block_output(
            blocks[n - 1],
            (n - 1) as nat,
            calls,
        )
    }
}

/// The contents of blocks `a` up to `b`, all literal text blocks, in order.
pub open spec fn html_between(blocks: Seq<BlockModel>, a: nat, b: nat) -> Seq<char>
    decreases b,
{
    if b <= a {
        Seq::empty()
    } else {
        html_between(blocks, a, (b - 1) as nat) + match blocks[b - 1] {
            BlockModel::Html(c) => c.content,
            _ => Seq::empty(),
        }
    }
}

/// The text appended after a block that failed.
pub open spec fn error_trailer(diagnostic: Seq<char>) -> Seq<char> {
    "\n<!-- ERROR -->\n"@ + diagnostic + "\n"@
}

/// What the engine has to do next for a render.
pub enum BlockAction {
    /// Run `source` in the request's context under these origin offsets,
    /// then report the outcome with `finish_block`.
    Run { source: String, line_offset: i32, column_offset: i32 },
    /// Every block has been handled, or one failed: the output is complete.
    Finished,
}

proof fn lemma_echoed_other(calls: Seq<(nat, Seq<char>)>, k: nat)
    requires
        forall|i: int| 0 <= i < calls.len() ==> (#[trigger] calls[i]).0 != k,
    ensures
        echoed(calls, k) == Seq::<char>::empty(),
    decreases calls.len(),
{
    if calls.len() > 0 {
        lemma_echoed_other(calls.drop_last(), k);
    }
}

proof fn lemma_output_upto_push(
    blocks: Seq<BlockModel>,
    calls: Seq<(nat, Seq<char>)>,
    n: nat,
    m: nat,
    text: Seq<char>,
)
    requires
        n <= m,
    ensures
        output_upto(blocks, calls.push((m, text)), n) == output_upto(blocks, calls, n),
    decreases n,
{
    if n > 0 {
        lemma_output_upto_push(blocks, calls, (n - 1) as nat, m, text);
        assert(calls.push((m, text)).drop_last() =~= calls);
    }
}

/// The per-request render of a parsed document: literal text goes to the
/// output directly, script blocks are handed to the engine one at a time, and
/// what `echo` receives while a block runs is appended in call order.
pub struct Renderer {
    blocks: Vec<Box<CodeBlock>>,
    resource_name: String,
    next: usize,
    running: bool,
    failed: bool,
    output: String,
    calls: Ghost<Seq<(nat, Seq<char>)>>,
    diagnostic: Ghost<Seq<char>>,
}

impl Renderer {
    /// The blocks being rendered.
    pub closed spec fn blocks_view(&self) -> Seq<BlockModel> {
        blocks_model(self.blocks@)
    }

    /// The resource name of the document.
    pub closed spec fn resource_view(&self) -> Seq<char> {
        self.resource_name@
    }

    /// The index of the block being run or to be run next.
    pub closed spec fn next(&self) -> nat {
        self.next as nat
    }

    /// Whether a script block has been handed out and not yet finished.
    pub closed spec fn running(&self) -> bool {
        self.running
    }

    /// Whether a block failed, which ends the render.
    pub closed spec fn failed(&self) -> bool {
        self.failed
    }

    /// Every echo call so far, with the block that was running.
    pub closed spec fn calls(&self) -> Seq<(nat, Seq<char>)> {
        self.calls@
    }

    /// The diagnostic of the block that failed.
    pub closed spec fn diagnostic(&self) -> Seq<char> {
        self.diagnostic@
    }

    /// The output written so far.
    pub closed spec fn output_view(&self) -> Seq<char> {
        self.output@
    }

    /// The output is the contributions of the finished blocks, what the current
    /// block echoed so far and, after a failure, the error trailer.
    pub closed spec fn wf(&self) -> bool {
        &&& self.next <= self.blocks@.len()
        &&& self.running ==> self.next < self.blocks@.len() && !self.failed && !(
        self.blocks_view()[self.next as int] is Html)
        &&& self.failed ==> self.next < self.blocks@.len()
        &&& forall|i: int|
            0 <= i < self.calls@.len() ==> (#[trigger] self.calls@[i]).0 < self.next || (
            self.calls@[i].0 == self.next && (self.running || self.failed))
        &&& self.output@ == output_upto(self.blocks_view(), self.calls@, self.next as nat) + echoed(
            self.calls@,
            self.next as nat,
        ) + if self.failed {
            error_trailer(self.diagnostic@)
        } else {
            Seq::empty()
        }
    }

    /// A render of `blocks` under the resource name `resource_name`, with an empty output.
    pub fn new(blocks: Vec<Box<CodeBlock>>, resource_name: String) -> (r: Self)
        ensures
            r.wf(),
            r.blocks_view() == blocks_model(blocks@),
            r.resource_view() == resource_name@,
            r.next() == 0,
            !r.running(),
            !r.failed(),
            r.calls() == Seq::<(nat, Seq<char>)>::empty(),
            r.output_view() == Seq::<char>::empty(),
    {
        let r = Renderer {
            blocks,
            resource_name,
            next: 0,
            running: false,
            failed: false,
            output: String::new(),
            calls: Ghost(Seq::empty()),
            diagnostic: Ghost(Seq::empty()),
        };
        assert(r.output@ =~= output_upto(r.blocks_view(), r.calls@, 0) + echoed(r.calls@, 0) + Seq::<
            char,
        >::empty());
        r
    }

    /// The resource name that diagnostics carry.
    pub fn resource_name(&self) -> (r: &str)
        ensures
            r@ == self.resource_view(),
    {
        self.resource_name.as_str()
    }

    /// Appends literal text blocks to the output until a script block comes,
    /// and hands that block out.
    pub fn next_action(&mut self) -> (r: BlockAction)
        requires
            old(self).wf(),
        ensures
            final(self).wf(),
            final(self).blocks_view() == old(self).blocks_view(),
            final(self).resource_view() == old(self).resource_view(),
            final(self).calls() == old(self).calls(),
            final(self).failed() == old(self).failed(),
            final(self).diagnostic() == old(self).diagnostic(),
            old(self).next() <= final(self).next(),
            forall|k: int|
                old(self).next() <= k < final(self).next() ==> (#[trigger] old(self).blocks_view()[k]) is Html,
            old(self).failed() ==> r is Finished && final(self).next() == old(self).next()
                && final(self).output_view() == old(self).output_view(),
            !old(self).failed() && r is Finished ==> final(self).next() == final(self).blocks_view().len(),
            final(self).output_view() == old(self).output_view() + html_between(
                old(self).blocks_view(),
                old(self).next(),
                final(self).next(),
            ),
            match r {
                BlockAction::Finished => !final(self).running() && (final(self).failed() || final(self).next() == final(self).blocks_view().len()),
                BlockAction::Run { source, line_offset, column_offset } => final(self).running()
                    && final(self).next() < final(self).blocks_view().len() && !(final(self).blocks_view()[final(self).next() as int] is Html) && (
                    source@,
                    line_offset,
                    column_offset,
                ) == run_of(
                    final(self).blocks_view()[final(self).next() as int],
                ),
            },
    {
        let ghost start = self.next;
        while self.next < self.blocks.len() && !self.failed
            invariant
                self.wf(),
                self.blocks == old(self).blocks,
                self.resource_name == old(self).resource_name,
                self.calls == old(self).calls,
                self.failed == old(self).failed,
                self.diagnostic == old(self).diagnostic,
                start == old(self).next,
                start <= self.next,
                self.failed ==> self.next == start,
                forall|k: int| start <= k < self.next ==> (#[trigger] self.blocks_view()[k]) is Html,
                self.output@ == old(self).output@ + html_between(
                    self.blocks_view(),
                    start as nat,
                    self.next as nat,
                ),
            decreases self.blocks@.len() - self.next,
        {
            match &*self.blocks[self.next] {
                CodeBlock::Html(c) => {
                    let ghost n = self.next as nat;
                    proof {
                        lemma_echoed_other(self.calls@, n);
                    }
                    self.output.append(c.content.as_str());
                    self.next = self.next + 1;
                    proof {
                        assert(html_between(self.blocks_view(), start as nat, self.next as nat)
                            == html_between(self.blocks_view(), start as nat, n) + c.content@);
                        lemma_echoed_other(self.calls@, self.next as nat);
                        assert(output_upto(self.blocks_view(), self.calls@, self.next as nat)
                            == output_upto(self.blocks_view(), self.calls@, n) + c.content@);
                        assert(self.output@ =~= output_upto(
                            self.blocks_view(),
                            self.calls@,
                            self.next as nat,
                        ) + echoed(self.calls@, self.next as nat) + Seq::<char>::empty());
                    }
                },
                CodeBlock::Expression(c) => {
                    let t = trimmed(c.content.as_str());
                    let mut source = String::new();
                    source.append("echo(String(");
                    source.append(t.as_str());
                    source.append("));");
                    let line_offset = clamp_offset(c.lineno, 1);
                    let column_offset = clamp_offset(c.colno, 1 + ECHO_PREFIX_LEN);
                    self.running = true;
                    return BlockAction::Run { source, line_offset, column_offset };
                },
                CodeBlock::Javascript(c) => {
                    let source = c.content.clone();
                    let line_offset = clamp_offset(c.lineno, 1);
                    let column_offset = clamp_offset(c.colno, 1);
                    self.running = true;
                    return BlockAction::Run { source, line_offset, column_offset };
                },
            }
        }
        BlockAction::Finished
    }

    /// Appends what an `echo` call received while the current block runs.
    /// Outside a running block nothing is written.
    pub fn echo(&mut self, text: &str)
        requires
            old(self).wf(),
        ensures
            final(self).wf(),
            final(self).blocks_view() == old(self).blocks_view(),
            final(self).resource_view() == old(self).resource_view(),
            final(self).next() == old(self).next(),
            final(self).running() == old(self).running(),
            final(self).failed() == old(self).failed(),
            final(self).diagnostic() == old(self).diagnostic(),
            old(self).running() ==> final(self).calls() == old(self).calls().push(
                (old(self).next(), text@),
            ) && final(self).output_view() == old(self).output_view() + text@,
            !old(self).running() ==> final(self).calls() == old(self).calls()
                && final(self).output_view() == old(self).output_view(),
    {
        if self.running {
            let ghost n = self.next as nat;
            let ghost old_calls = self.calls@;
            self.output.append(text);
            self.calls = Ghost(self.calls@.push((n, text@)));
            proof {
                lemma_output_upto_push(self.blocks_view(), old_calls, n, n, text@);
                assert(self.calls@.drop_last() =~= old_calls);
                assert(self.output@ =~= output_upto(self.blocks_view(), self.calls@, n) + echoed(
                    self.calls@,
                    n,
                ) + Seq::<char>::empty());
            }
        }
    }

    /// Records how the running block ended: on success the render moves on;
    /// on failure the diagnostic is appended and the render stops.
    pub fn finish_block(&mut self, outcome: Result<(), String>)
        requires
            old(self).wf(),
        ensures
            final(self).wf(),
            final(self).blocks_view() == old(self).blocks_view(),
            final(self).resource_view() == old(self).resource_view(),
            final(self).calls() == old(self).calls(),
            !final(self).running(),
            !old(self).running() ==> final(self).next() == old(self).next() && final(self).failed() == old(self).failed() && final(self).output_view() == old(self).output_view() && final(self).diagnostic() == old(self).diagnostic(),
            old(self).running() ==> match outcome {
                Ok(()) => final(self).next() == old(self).next() + 1 && !final(self).failed()
                    && final(self).output_view() == old(self).output_view(),
                Err(d) => final(self).next() == old(self).next() && final(self).failed()
                    && final(self).diagnostic() == d@ && final(self).output_view() == old(self).output_view() + error_trailer(d@),
            },
    {
        if !self.running {
            return;
        }
        let ghost n = self.next as nat;
        let len = self.blocks.len();
        assert(self.next < len);
        self.running = false;
        match outcome {
            Ok(()) => {
                self.next = self.next + 1;
                proof {
                    lemma_echoed_other(self.calls@, self.next as nat);
                    assert(self.output@ =~= output_upto(
                        self.blocks_view(),
                        self.calls@,
                        self.next as nat,
                    ) + echoed(self.calls@, self.next as nat) + Seq::<char>::empty());
                }
            },
            Err(d) => {
                self.output.append("\n<!-- ERROR -->\n");
                self.output.append(d.as_str());
                self.output.append("\n");
                self.failed = true;
                self.diagnostic = Ghost(d@);
                assert(self.output@ =~= output_upto(self.blocks_view(), self.calls@, n) + echoed(
                    self.calls@,
                    n,
                ) + error_trailer(d@));
            },
        }
    }

    /// The output written so far.
    pub fn output(&self) -> (r: &str)
        ensures
            r@ == self.output_view(),
    {
        self.output.as_str()
    }

    /// The finished body.
    pub fn into_output(self) -> (r: String)
        ensures
            r@ == self.output_view(),
    {
        self.output
    }
}

/// `n - minus` as an origin offset.
fn clamp_offset(n: usize, minus: usize) -> (r: i32)
    requires
        minus <= 13,
    ensures
        r == clamp_i32(n - minus),
{
    if n >= minus {
        let d = n - minus;
        if d > i32::MAX as usize {
            i32::MAX
        } else {
            d as i32
        }
    } else {
        let d = (minus - n) as i32;
        -d
    }
}

/// The body that a render sends back: for every block in order, literal text as
/// it stands and, for a script or expression block, what its `echo` calls wrote,
/// in call order. After a failing block the body holds what came before, what the
/// failing block wrote and the error trailer, and nothing of later blocks.
pub proof fn lemma_echo_completeness(r: &Renderer)
    requires
        r.wf(),
    ensures
        !r.failed() && r.next() == r.blocks_view().len() ==> r.output_view() == output_upto(
            r.blocks_view(),
            r.calls(),
            r.blocks_view().len(),
        ),
        r.failed() ==> r.output_view() == output_upto(r.blocks_view(), r.calls(), r.next())
            + echoed(r.calls(), r.next()) + error_trailer(r.diagnostic()),
{
    if !r.failed() && r.next() == r.blocks_view().len() {
        lemma_echoed_other(r.calls(), r.next());
        assert(r.output_view() =~= output_upto(r.blocks_view(), r.calls(), r.next()));
    }
}

} // verus!

verus! {

/// Whether `s` begins with `prefix`.
pub open spec fn starts_with(s: Seq<char>, prefix: Seq<char>) -> bool {
    prefix.len() <= s.len() && s.take(prefix.len() as int) == prefix
}

/// Where the engine located an uncaught exception.
pub struct ErrorLocation {
    /// The resource name of the script, when the engine gives one.
    pub resource: Option<String>,
    /// The 1-based line, when the engine gives one.
    pub line: Option<usize>,
    /// The column.
    pub column: usize,
}

/// The diagnostic of an uncaught exception: `resource:line:column`, then the
/// message, then the stack trace, the message left out when the trimmed stack
/// trace already begins with it.
pub open spec fn diagnostic_text(
    message: Seq<char>,
    name: Seq<char>,
    line: nat,
    column: nat,
    stack: Seq<char>,
) -> Seq<char> {
    let header = name + ":"@ + crate::text::decimal(line) + ":"@ + crate::text::decimal(column);
    let st = trim(stack);
    if st.len() > 0 {
        if starts_with(st, message) {
            header + "\n"@ + st
        } else {
            header + "\n"@ + message + "\n"@ + st
        }
    } else {
        header + "\n"@ + message
    }
}

/// The message of an exception, or a stand-in when the engine gives none.
pub open spec fn message_or_default(exception: Option<String>) -> Seq<char> {
    match exception {
        Some(e) => e@,
        None => "Uncaught exception"@,
    }
}

/// The resource name, line and column of a diagnostic.
pub open spec fn location_or_default(location: Option<ErrorLocation>, fallback_name: Seq<char>) -> (
    Seq<char>,
    nat,
    nat,
) {
    match location {
        Some(l) => (
            match l.resource {
                Some(r) => r@,
                None => fallback_name,
            },
            match l.line {
                Some(n) => n as nat,
                None => 0,
            },
            l.column as nat,
        ),
        None => (fallback_name, 0, 0),
    }
}

/// The stack trace text, empty when the engine gives none.
pub open spec fn stack_or_empty(stack: Option<String>) -> Seq<char> {
    match stack {
        Some(s) => s@,
        None => Seq::empty(),
    }
}

fn seq_starts_with(s: &Vec<char>, from: usize, to: usize, prefix: &Vec<char>) -> (r: bool)
    requires
        from <= to <= s@.len(),
    ensures
        r == starts_with(s@.subrange(from as int, to as int), prefix@),
{
    if prefix.len() > to - from {
        return false;
    }
    let mut i: usize = 0;
    while i < prefix.len()
        invariant
            from <= to <= s@.len(),
            prefix@.len() <= to - from,
            i <= prefix@.len(),
            forall|j: int| 0 <= j < i ==> s@[from + j] == prefix@[j],
        decreases prefix@.len() - i,
    {
        if s[from + i] != prefix[i] {
            assert(s@.subrange(from as int, to as int).take(prefix@.len() as int)[i as int]
                != prefix@[i as int]);
            return false;
        }
        i += 1;
    }
    assert(s@.subrange(from as int, to as int).take(prefix@.len() as int) =~= prefix@);
    true
}

/// Formats an uncaught exception for the error trailer of a render.
pub fn format_exception(
    exception: Option<String>,
    location: Option<ErrorLocation>,
    stack: Option<String>,
    fallback_name: &str,
) -> (r: String)
    ensures
        ({
            let (name, line, column) = location_or_default(location, fallback_name@);
            r@ == diagnostic_text(
                message_or_default(exception),
                name,
                line,
                column,
                stack_or_empty(stack),
            )
        }),
{
    let ghost spec_loc = location_or_default(location, fallback_name@);
    let ghost spec_msg = message_or_default(exception);
    let ghost spec_stack = stack_or_empty(stack);
    let message = match exception {
        Some(e) => e,
        None => String::from_str("Uncaught exception"),
    };
    let (name, line, column) = match location {
        Some(l) => {
            let name = match l.resource {
                Some(r) => r,
                None => String::from_str(fallback_name),
            };
            let line = match l.line {
                Some(n) => n,
                None => 0,
            };
            (name, line, l.column)
        },
        None => (String::from_str(fallback_name), 0, 0),
    };
    let stack_text = match stack {
        Some(s) => s,
        None => String::new(),
    };
    assert(name@ == spec_loc.0 && line as nat == spec_loc.1 && column as nat == spec_loc.2);
    let mut out = name;
    out.append(":");
    crate::text::push_decimal(&mut out, line as u64);
    out.append(":");
    crate::text::push_decimal(&mut out, column as u64);
    let v = crate::text::chars_of(stack_text.as_str());
    let n = v.len();
    let a = crate::text::skip_whitespace(&v, 0, n);
    let b = crate::text::skip_whitespace_back(&v, a, n);
    assert(v@.subrange(0, n as int) =~= stack_text@);
    let st = crate::text::string_of_range(&v, a, b);
    let m = crate::text::chars_of(message.as_str());
    if b > a {
        if seq_starts_with(&v, a, b, &m) {
            out.append("\n");
            out.append(st.as_str());
        } else {
            out.append("\n");
            out.append(message.as_str());
            out.append("\n");
            out.append(st.as_str());
        }
    } else {
        out.append("\n");
        out.append(message.as_str());
    }
    out
}

} // verus!
