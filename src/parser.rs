use vstd::prelude::*;

use crate::text::{
    chars_of, push_char, skip_whitespace, skip_whitespace_back, string_of_range, trim, trim_end,
    trim_start,
};

verus! {

/// The recorded data of one block, as plain mathematical values.
pub struct ContentModel {
    pub lineno: nat,
    pub colno: nat,
    pub content: Seq<char>,
    pub level: nat,
}

/// One parsed block, as plain mathematical values.
pub enum BlockModel {
    Html(ContentModel),
    Javascript(ContentModel),
    Expression(ContentModel),
}

/// A block's coordinates, content and brace level.
#[derive(Debug, Clone)]
pub struct CodeBlockContent {
    pub lineno: usize,
    pub colno: usize,
    pub content: String,
    pub level: usize,
}

/// One element of a parsed template.
#[derive(Debug, Clone)]
pub enum CodeBlock {
    Html(CodeBlockContent),
    Javascript(CodeBlockContent),
    Expression(CodeBlockContent),
}

impl CodeBlockContent {
    /// The recorded data as mathematical values.
    pub open spec fn model(&self) -> ContentModel {
        ContentModel {
            lineno: self.lineno as nat,
            colno: self.colno as nat,
            content: self.content@,
            level: self.level as nat,
        }
    }
}

impl CodeBlock {
    /// The block as mathematical values.
    pub open spec fn model(&self) -> BlockModel {
        match self {
            CodeBlock::Html(c) => BlockModel::Html(c.model()),
            CodeBlock::Javascript(c) => BlockModel::Javascript(c.model()),
            CodeBlock::Expression(c) => BlockModel::Expression(c.model()),
        }
    }
}

/// The models of a sequence of boxed blocks.
pub open spec fn blocks_model(v: Seq<Box<CodeBlock>>) -> Seq<BlockModel> {
    v.map_values(|b: Box<CodeBlock>| (*b).model())
}

/// The ordered blocks of one parsed document.
#[derive(Debug, Clone)]
pub struct ParseResults {
    pub blocks: Vec<Box<CodeBlock>>,
}

// The template grammar, over the characters of a document.

/// Whether the two-character sequence `a b` starts at `i`.
pub open spec fn pair_at(s: Seq<char>, i: int, a: char, b: char) -> bool {
    0 <= i && i + 1 < s.len() && s[i] == a && s[i + 1] == b
}

/// Whether a script fence `<?` opens at `i`.
pub open spec fn opens_at(s: Seq<char>, i: int) -> bool {
    pair_at(s, i, '<', '?')
}

/// Whether a script fence `?>` closes at `i`.
pub open spec fn closes_at(s: Seq<char>, i: int) -> bool {
    pair_at(s, i, '?', '>')
}

/// The first position at or after `i` where `a b` starts, or the length of `s`.
pub open spec fn find_pair(s: Seq<char>, i: nat, a: char, b: char) -> nat
    decreases s.len() - i,
{
    if i >= s.len() {
        s.len()
    } else if pair_at(s, i as int, a, b) {
        i
    } else {
        find_pair(s, i + 1, a, b)
    }
}

/// The number of line feeds in `s[0..i]`.
pub open spec fn newlines_before(s: Seq<char>, i: int) -> nat
    decreases i,
{
    if i <= 0 {
        0
    } else if s[i - 1] == '\n' {
        newlines_before(s, i - 1) + 1
    } else {
        newlines_before(s, i - 1)
    }
}

/// The position where the line holding position `i` starts.
pub open spec fn line_start(s: Seq<char>, i: int) -> nat
    decreases i,
{
    if i <= 0 {
        0
    } else if s[i - 1] == '\n' {
        i as nat
    } else {
        line_start(s, i - 1)
    }
}

/// The 1-based line of position `i`.
pub open spec fn line_at(s: Seq<char>, i: int) -> nat {
    newlines_before(s, i) + 1
}

/// The 1-based column of position `i`, counted in characters.
pub open spec fn column_at(s: Seq<char>, i: int) -> nat {
    (i - line_start(s, i) + 1) as nat
}

/// One character made safe inside a back-quoted script literal.
pub open spec fn escape_char(c: char) -> Seq<char> {
    if c == '\'' {
        seq!['&', '#', '3', '9', ';']
    } else if c == '"' {
        seq!['&', 'q', 'u', 'o', 't', ';']
    } else if c == '`' {
        seq!['&', '#', '9', '6', ';']
    } else {
        seq![c]
    }
}

/// `t` with each quote character replaced by its HTML entity.
pub open spec fn escape_html(t: Seq<char>) -> Seq<char>
    decreases t.len(),
{
    if t.len() == 0 {
        Seq::empty()
    } else {
        escape_html(t.drop_last()) + escape_char(t.last())
    }
}

/// The literal text block that starts at `i`, and the position after it.
pub open spec fn html_step(s: Seq<char>, i: nat, nest: nat) -> (BlockModel, nat) {
    let j = find_pair(s, i, '<', '?');
    (
        BlockModel::Html(
            ContentModel {
                lineno: line_at(s, i as int),
                colno: column_at(s, i as int),
                content: escape_html(s.subrange(i as int, j as int)),
                level: nest,
            },
        ),
        j,
    )
}

/// The end of the body of a script block whose fence opens at `i`.
pub open spec fn body_end(s: Seq<char>, i: nat) -> nat {
    find_pair(s, i + 2, '?', '>')
}

/// The body of a script block whose fence opens at `i`.
pub open spec fn body_of(s: Seq<char>, i: nat) -> Seq<char> {
    s.subrange((i + 2) as int, body_end(s, i) as int)
}

/// The position after a script block whose fence opens at `i`.
pub open spec fn after_script(s: Seq<char>, i: nat) -> nat {
    if body_end(s, i) < s.len() {
        body_end(s, i) + 2
    } else {
        s.len()
    }
}

/// Whether a script body is an expression (`=` after leading white space).
pub open spec fn is_expression_body(body: Seq<char>) -> bool {
    trim_start(body).len() > 0 && trim_start(body)[0] == '='
}

/// The brace level recorded for a script body when the running level is `nest`.
pub open spec fn level_of(body: Seq<char>, nest: nat) -> nat {
    if trim_start(body).len() > 0 && trim_start(body)[0] == '}' {
        if nest > 0 {
            (nest - 1) as nat
        } else {
            0
        }
    } else {
        nest
    }
}

/// The running level after a script body.
pub open spec fn level_after(body: Seq<char>, nest: nat) -> nat {
    if trim_end(body).len() > 0 && trim_end(body).last() == '{' {
        level_of(body, nest) + 1
    } else {
        level_of(body, nest)
    }
}

/// The expression text after the `=`, with leading white space removed.
pub open spec fn expression_rest(body: Seq<char>) -> Seq<char> {
    trim_start(trim_start(body).drop_first())
}

/// The script or expression block whose fence opens at `i`, the position after
/// it and the running level after it.
pub open spec fn script_step(s: Seq<char>, i: nat, nest: nat) -> (BlockModel, nat, nat) {
    let body = body_of(s, i);
    let level = level_of(body, nest);
    let block = if is_expression_body(body) {
        let p = body_end(s, i) - expression_rest(body).len();
        BlockModel::Expression(
            ContentModel {
                lineno: line_at(s, p),
                colno: column_at(s, p),
                content: trim(trim_start(body).drop_first()),
                level,
            },
        )
    } else {
        BlockModel::Javascript(
            ContentModel {
                lineno: line_at(s, (i + 2) as int),
                colno: column_at(s, (i + 2) as int),
                content: body,
                level,
            },
        )
    };
    (block, after_script(s, i), level_after(body, nest))
}

/// The blocks of `s` from position `i` on, with running level `nest`.
pub open spec fn parse_from(s: Seq<char>, i: nat, nest: nat) -> Seq<BlockModel>
    decreases s.len() - i,
{
    if i >= s.len() {
        Seq::empty()
    } else if opens_at(s, i as int) {
        let (b, j, n) = script_step(s, i, nest);
        if i < j <= s.len() {
            seq![b] + parse_from(s, j, n)
        } else {
            Seq::empty()
        }
    } else {
        let (b, j) = html_step(s, i, nest);
        if i < j <= s.len() {
            seq![b] + parse_from(s, j, nest)
        } else {
            Seq::empty()
        }
    }
}

/// The blocks of a whole document.
pub open spec fn parse_model(s: Seq<char>) -> Seq<BlockModel> {
    parse_from(s, 0, 0)
}

} // verus!

verus! {

// Facts about the grammar.

/// A search for a two-character sequence ends inside the text, on a match
/// when it ends before the end.
pub proof fn lemma_find_pair_bounds(s: Seq<char>, i: nat, a: char, b: char)
    ensures
        i <= s.len() ==> i <= find_pair(s, i, a, b),
        find_pair(s, i, a, b) <= s.len(),
        find_pair(s, i, a, b) < s.len() ==> pair_at(s, find_pair(s, i, a, b) as int, a, b),
    decreases s.len() - i,
{
    if i < s.len() && !pair_at(s, i as int, a, b) {
        lemma_find_pair_bounds(s, i + 1, a, b);
    }
}

/// Line counts and line starts never pass the position they are taken at.
pub proof fn lemma_newlines_bounded(s: Seq<char>, i: int)
    ensures
        newlines_before(s, i) <= if i < 0 { 0 } else { i },
        line_start(s, i) <= if i < 0 { 0 } else { i },
    decreases i,
{
    if i > 0 {
        lemma_newlines_bounded(s, i - 1);
    }
}

/// A step of the document grammar always moves forward and stays inside the text.
pub proof fn lemma_steps_advance(s: Seq<char>, i: nat, nest: nat)
    requires
        i < s.len(),
    ensures
        opens_at(s, i as int) ==> i < script_step(s, i, nest).1 <= s.len(),
        !opens_at(s, i as int) ==> i < html_step(s, i, nest).1 <= s.len(),
{
    lemma_find_pair_bounds(s, i, '<', '?');
    if opens_at(s, i as int) {
        lemma_find_pair_bounds(s, i + 2, '?', '>');
    }
}

} // verus!

verus! {

impl ParseResults {
    fn add_block(&mut self, block: Box<CodeBlock>)
        ensures
            final(self).blocks@ == old(self).blocks@.push(block),
    {
        self.blocks.push(block);
    }
}

/// A two-mode cursor over a template document.
pub struct Parser<'a> {
    content: &'a str,
    chars: Vec<char>,
    pos: usize,
    line: usize,
    line_begin: usize,
    nesting: usize,
}

impl<'a> Parser<'a> {
    /// The document that the parser reads.
    pub closed spec fn text(&self) -> Seq<char> {
        self.content@
    }

    /// The cursor's fields agree with the document.
    pub closed spec fn wf(&self) -> bool {
        &&& self.chars@ == self.content@
        &&& self.chars@.len() < usize::MAX
        &&& self.pos <= self.chars@.len()
        &&& self.line == line_at(self.chars@, self.pos as int)
        &&& self.line_begin == line_start(self.chars@, self.pos as int)
        &&& self.nesting <= self.pos
    }

    /// A parser positioned at the start of `content`.
    pub fn new(content: &'a str) -> (p: Self)
        requires
            content@.len() < usize::MAX,
        ensures
            p.wf(),
            p.text() == content@,
    {
        let chars = chars_of(content);
        Parser { content, chars, pos: 0, line: 1, line_begin: 0, nesting: 0 }
    }

    /// Points the parser at another document and resets its cursor.
    pub fn set_content(&mut self, content: &'a str)
        requires
            content@.len() < usize::MAX,
        ensures
            final(self).wf(),
            final(self).text() == content@,
    {
        self.content = content;
        self.chars = chars_of(content);
        self.pos = 0;
        self.line = 1;
        self.line_begin = 0;
        self.nesting = 0;
    }

    /// Splits the whole document into blocks.
    pub fn parse(&mut self) -> (r: ParseResults)
        requires
            old(self).wf(),
        ensures
            final(self).wf(),
            final(self).text() == old(self).text(),
            blocks_model(r.blocks@) == parse_model(old(self).text()),
    {
        self.pos = 0;
        self.line = 1;
        self.line_begin = 0;
        self.nesting = 0;
        let ghost s = self.chars@;
        let mut results = ParseResults { blocks: Vec::new() };
        assert(blocks_model(results.blocks@) =~= Seq::<BlockModel>::empty());
        while self.pos < self.chars.len()
            invariant
                self.wf(),
                self.chars@ == s,
                self.content@ == s,
                parse_model(s) == blocks_model(results.blocks@) + parse_from(
                    s,
                    self.pos as nat,
                    self.nesting as nat,
                ),
            decreases s.len() - self.pos,
        {
            let ghost before = results.blocks@;
            proof {
                lemma_steps_advance(s, self.pos as nat, self.nesting as nat);
            }
            let block = if self.lookahead('<', '?') {
                self.parse_js_block()
            } else {
                self.parse_html_block()
            };
            results.add_block(Box::new(block));
            assert(blocks_model(results.blocks@) =~= blocks_model(before).push(block.model()));
            assert(blocks_model(results.blocks@) + parse_from(s, self.pos as nat, self.nesting as nat)
                =~= blocks_model(before) + (seq![block.model()] + parse_from(s, self.pos as nat, self.nesting as nat)));
        }
        assert(blocks_model(results.blocks@) + parse_from(s, self.pos as nat, self.nesting as nat)
            =~= blocks_model(results.blocks@));
        results
    }

    /// Whether `first second` starts at the cursor.
    fn lookahead(&self, first: char, second: char) -> (r: bool)
        requires
            self.wf(),
        ensures
            r == pair_at(self.chars@, self.pos as int, first, second),
    {
        self.pos + 1 < self.chars.len() && self.chars[self.pos] == first && self.chars[self.pos
            + 1] == second
    }

    /// Takes the character under the cursor and moves past it.
    fn consume(&mut self) -> (c: char)
        requires
            old(self).wf(),
            old(self).pos < old(self).chars@.len(),
        ensures
            final(self).wf(),
            final(self).content == old(self).content,
            final(self).chars == old(self).chars,
            final(self).nesting == old(self).nesting,
            final(self).pos == old(self).pos + 1,
            c == old(self).chars@[old(self).pos as int],
    {
        proof {
            lemma_newlines_bounded(self.chars@, self.pos as int);
        }
        let c = self.chars[self.pos];
        self.pos = self.pos + 1;
        if c == '\n' {
            self.line = self.line + 1;
            self.line_begin = self.pos;
        }
        c
    }

    /// Moves the cursor forward to `target`.
    fn advance_to(&mut self, target: usize)
        requires
            old(self).wf(),
            old(self).pos <= target <= old(self).chars@.len(),
        ensures
            final(self).wf(),
            final(self).content == old(self).content,
            final(self).chars == old(self).chars,
            final(self).nesting == old(self).nesting,
            final(self).pos == target,
    {
        while self.pos < target
            invariant
                self.wf(),
                self.content == old(self).content,
                self.chars == old(self).chars,
                self.nesting == old(self).nesting,
                self.pos <= target <= self.chars@.len(),
            decreases target - self.pos,
        {
            self.consume();
        }
    }

    /// The 1-based column of the cursor.
    fn column_at(&self) -> (r: usize)
        requires
            self.wf(),
        ensures
            r == column_at(self.chars@, self.pos as int),
    {
        proof {
            lemma_newlines_bounded(self.chars@, self.pos as int);
        }
        self.pos - self.line_begin + 1
    }

    /// The first position at or after `from` where `?>` starts, or the end.
    fn find_close(&self, from: usize) -> (r: usize)
        requires
            self.wf(),
            from <= self.chars@.len(),
        ensures
            r == find_pair(self.chars@, from as nat, '?', '>'),
    {
        let mut i = from;
        while i < self.chars.len() && !(i + 1 < self.chars.len() && self.chars[i] == '?'
            && self.chars[i + 1] == '>')
            invariant
                self.wf(),
                from <= i <= self.chars@.len(),
                find_pair(self.chars@, from as nat, '?', '>') == find_pair(
                    self.chars@,
                    i as nat,
                    '?',
                    '>',
                ),
            decreases self.chars@.len() - i,
        {
            i += 1;
        }
        i
    }

    /// Reads a literal text block, escaping quote characters.
    fn parse_html_block(&mut self) -> (b: CodeBlock)
        requires
            old(self).wf(),
            old(self).pos < old(self).chars@.len(),
            !opens_at(old(self).chars@, old(self).pos as int),
        ensures
            final(self).wf(),
            final(self).content == old(self).content,
            final(self).chars == old(self).chars,
            (b.model(), final(self).pos as nat) == html_step(
                old(self).chars@,
                old(self).pos as nat,
                old(self).nesting as nat,
            ),
            final(self).nesting == old(self).nesting,
    {
        let ghost s = self.chars@;
        let start = self.pos;
        let start_line = self.line;
        let start_col = self.column_at();
        let mut buf = String::new();
        assert(s.subrange(start as int, start as int) =~= Seq::<char>::empty());
        while self.pos < self.chars.len() && !self.lookahead('<', '?')
            invariant
                self.wf(),
                self.content == old(self).content,
                self.chars == old(self).chars,
                self.chars@ == s,
                self.nesting == old(self).nesting,
                start <= self.pos,
                buf@ == escape_html(s.subrange(start as int, self.pos as int)),
                find_pair(s, start as nat, '<', '?') == find_pair(s, self.pos as nat, '<', '?'),
            decreases s.len() - self.pos,
        {
            let ghost p = self.pos;
            let c = self.consume();
            let ghost t = s.subrange(start as int, p + 1);
            assert(t.drop_last() =~= s.subrange(start as int, p as int));
            if c == '\'' {
                proof {
                    reveal_strlit("&#39;");
                }
                buf.append("&#39;");
            } else if c == '"' {
                proof {
                    reveal_strlit("&quot;");
                }
                buf.append("&quot;");
            } else if c == '`' {
                proof {
                    reveal_strlit("&#96;");
                }
                buf.append("&#96;");
            } else {
                push_char(&mut buf, c);
            }
            assert(buf@ =~= escape_html(t));
        }
        CodeBlock::Html(
            CodeBlockContent {
                lineno: start_line,
                colno: start_col,
                content: buf,
                level: self.nesting,
            },
        )
    }

    /// Reads a script or expression block whose fence opens at the cursor.
    fn parse_js_block(&mut self) -> (b: CodeBlock)
        requires
            old(self).wf(),
            opens_at(old(self).chars@, old(self).pos as int),
        ensures
            final(self).wf(),
            final(self).content == old(self).content,
            final(self).chars == old(self).chars,
            (b.model(), final(self).pos as nat, final(self).nesting as nat) == script_step(
                old(self).chars@,
                old(self).pos as nat,
                old(self).nesting as nat,
            ),
    {
        let ghost s = self.chars@;
        let tag = self.pos;
        let body_start = tag + 2;
        let k = self.find_close(body_start);
        proof {
            lemma_find_pair_bounds(s, body_start as nat, '?', '>');
        }
        let ghost body = s.subrange(body_start as int, k as int);
        let lead = skip_whitespace(&self.chars, body_start, k);
        let tail = skip_whitespace_back(&self.chars, body_start, k);
        let mut nesting = self.nesting;
        if lead < k && self.chars[lead] == '}' {
            nesting = if nesting > 0 { nesting - 1 } else { 0 };
        }
        let level = nesting;
        if tail > body_start && self.chars[tail - 1] == '{' {
            nesting = nesting + 1;
        }
        assert(level == level_of(body, self.nesting as nat));
        assert(nesting == level_after(body, self.nesting as nat));
        let block = if lead < k && self.chars[lead] == '=' {
            assert(trim_start(body).drop_first() =~= s.subrange(lead + 1, k as int));
            let first = skip_whitespace(&self.chars, lead + 1, k);
            let last = skip_whitespace_back(&self.chars, first, k);
            self.advance_to(first);
            let lineno = self.line;
            let colno = self.column_at();
            let content = string_of_range(&self.chars, first, last);
            CodeBlock::Expression(CodeBlockContent { lineno, colno, content, level })
        } else {
            self.advance_to(body_start);
            let lineno = self.line;
            let colno = self.column_at();
            let content = string_of_range(&self.chars, body_start, k);
            CodeBlock::Javascript(CodeBlockContent { lineno, colno, content, level })
        };
        self.advance_to(k);
        if k < self.chars.len() {
            self.advance_to(k + 2);
        }
        self.nesting = nesting;
        block
    }
}

} // verus!

verus! {

/// Whether no script fence `<?` opens anywhere in `t`.
pub open spec fn no_fence(t: Seq<char>) -> bool {
    forall|k: int| !#[trigger] opens_at(t, k)
}

/// Before the position that a search for `a b` finds, `a b` starts nowhere.
proof fn lemma_find_pair_first(s: Seq<char>, i: nat, a: char, b: char, m: int)
    requires
        i <= m < find_pair(s, i, a, b),
    ensures
        !pair_at(s, m, a, b),
    decreases s.len() - i,
{
    if i < s.len() && !pair_at(s, i as int, a, b) && m > i {
        lemma_find_pair_first(s, i + 1, a, b, m);
    }
}

/// Whether `piece` is the source text that block `b` was read from: literal text
/// that holds no opening fence and escapes to the block's content, or a fenced body (the closing fence may
/// be missing on the last block only).
pub open spec fn piece_matches(b: BlockModel, piece: Seq<char>, last: bool) -> bool {
    match b {
        BlockModel::Html(c) => escape_html(piece) == c.content && no_fence(piece),
        BlockModel::Javascript(c) => piece == "<?"@ + c.content + "?>"@ || (last && piece
            == "<?"@ + c.content),
        BlockModel::Expression(c) => exists|body: Seq<char>|
            {
                &&& (piece == "<?"@ + body + "?>"@ || (last && piece == "<?"@ + body))
                &&& is_expression_body(body)
                &&& c.content == trim(trim_start(body).drop_first())
            },
    }
}

/// The source pieces of the blocks of `s` from position `i` on.
pub open spec fn pieces_from(s: Seq<char>, i: nat, nest: nat) -> Seq<Seq<char>>
    decreases s.len() - i,
{
    if i >= s.len() {
        Seq::empty()
    } else if opens_at(s, i as int) {
        let (_, j, n) = script_step(s, i, nest);
        if i < j <= s.len() {
            seq![s.subrange(i as int, j as int)] + pieces_from(s, j, n)
        } else {
            Seq::empty()
        }
    } else {
        let (_, j) = html_step(s, i, nest);
        if i < j <= s.len() {
            seq![s.subrange(i as int, j as int)] + pieces_from(s, j, nest)
        } else {
            Seq::empty()
        }
    }
}

proof fn lemma_pieces_from(s: Seq<char>, i: nat, nest: nat)
    requires
        i <= s.len(),
    ensures
        pieces_from(s, i, nest).len() == parse_from(s, i, nest).len(),
        pieces_from(s, i, nest).flatten() == s.subrange(i as int, s.len() as int),
        forall|k: int|
            0 <= k < parse_from(s, i, nest).len() ==> piece_matches(
                #[trigger] parse_from(s, i, nest)[k],
                pieces_from(s, i, nest)[k],
                k == parse_from(s, i, nest).len() - 1,
            ),
    decreases s.len() - i,
{
    if i == s.len() {
        assert(s.subrange(i as int, s.len() as int) =~= Seq::<char>::empty());
    } else {
        lemma_steps_advance(s, i, nest);
        let blocks = parse_from(s, i, nest);
        let pieces = pieces_from(s, i, nest);
        let (b, j, n) = if opens_at(s, i as int) {
            script_step(s, i, nest)
        } else {
            let (b, j) = html_step(s, i, nest);
            (b, j, nest)
        };
        lemma_pieces_from(s, j, n);
        let piece = s.subrange(i as int, j as int);
        assert(blocks == seq![b] + parse_from(s, j, n));
        assert(pieces == seq![piece] + pieces_from(s, j, n));
        assert(pieces.drop_first() =~= pieces_from(s, j, n));
        assert(s.subrange(i as int, s.len() as int) =~= piece + s.subrange(j as int, s.len() as int));
        if !opens_at(s, i as int) {
            assert forall|k: int| !#[trigger] opens_at(piece, k) by {
                if 0 <= k && k + 1 < piece.len() {
                    lemma_find_pair_first(s, i, '<', '?', i + k);
                    assert(piece[k] == s[i + k] && piece[k + 1] == s[i + k + 1]);
                }
            }
        }
        if opens_at(s, i as int) {
            let k = body_end(s, i);
            let body = body_of(s, i);
            lemma_find_pair_bounds(s, (i + 2) as nat, '?', '>');
            reveal_strlit("<?");
            reveal_strlit("?>");
            if k < s.len() {
                assert(piece =~= "<?"@ + body + "?>"@);
            } else {
                assert(piece =~= "<?"@ + body);
                assert(parse_from(s, j, n) =~= Seq::<BlockModel>::empty());
            }
            assert(piece_matches(b, piece, blocks.len() == 1));
        }
        assert forall|k: int| 0 <= k < blocks.len() implies piece_matches(
            #[trigger] blocks[k],
            pieces[k],
            k == blocks.len() - 1,
        ) by {
            if k > 0 {
                assert(blocks[k] == parse_from(s, j, n)[k - 1]);
                assert(pieces[k] == pieces_from(s, j, n)[k - 1]);
            }
        }
    }
}

/// Every document is read whole: it splits into one piece per block, in order,
/// where literal text escapes to its block's content and each script piece is
/// its block's body with the fences put back round it.
pub proof fn lemma_parse_total(s: Seq<char>)
    ensures
        exists|pieces: Seq<Seq<char>>|
            {
                &&& pieces.len() == parse_model(s).len()
                &&& pieces.flatten() == s
                &&& forall|k: int|
                    0 <= k < pieces.len() ==> piece_matches(
                        #[trigger] parse_model(s)[k],
                        pieces[k],
                        k == pieces.len() - 1,
                    )
            },
{
    lemma_pieces_from(s, 0, 0);
    assert(s.subrange(0, s.len() as int) =~= s);
    let pieces = pieces_from(s, 0, 0);
    assert(pieces.len() == parse_model(s).len());
}

} // verus!

verus! {

/// The recorded data of a block, whatever its kind.
pub open spec fn content_of(b: BlockModel) -> ContentModel {
    match b {
        BlockModel::Html(c) => c,
        BlockModel::Javascript(c) => c,
        BlockModel::Expression(c) => c,
    }
}

/// The position of the first content character of the block that starts at `i`.
pub open spec fn content_position(s: Seq<char>, i: nat) -> nat {
    if !opens_at(s, i as int) {
        i
    } else if is_expression_body(body_of(s, i)) {
        (body_end(s, i) - expression_rest(body_of(s, i)).len()) as nat
    } else {
        i + 2
    }
}

/// The content positions of the blocks of `s` from position `i` on.
pub open spec fn positions_from(s: Seq<char>, i: nat, nest: nat) -> Seq<nat>
    decreases s.len() - i,
{
    if i >= s.len() {
        Seq::empty()
    } else if opens_at(s, i as int) {
        let (_, j, n) = script_step(s, i, nest);
        if i < j <= s.len() {
            seq![content_position(s, i)] + positions_from(s, j, n)
        } else {
            Seq::empty()
        }
    } else {
        let (_, j) = html_step(s, i, nest);
        if i < j <= s.len() {
            seq![content_position(s, i)] + positions_from(s, j, nest)
        } else {
            Seq::empty()
        }
    }
}

proof fn lemma_trim_start_len(t: Seq<char>)
    ensures
        trim_start(t).len() <= t.len(),
    decreases t.len(),
{
    if t.len() > 0 && crate::text::spec_is_whitespace(t[0]) {
        lemma_trim_start_len(t.drop_first());
    }
}

proof fn lemma_positions_from(s: Seq<char>, i: nat, nest: nat)
    requires
        i <= s.len(),
    ensures
        positions_from(s, i, nest).len() == parse_from(s, i, nest).len(),
        forall|k: int|
            0 <= k < positions_from(s, i, nest).len() ==> i <= #[trigger] positions_from(
                s,
                i,
                nest,
            )[k] <= s.len(),
        forall|a: int, b: int|
            0 <= a < b < positions_from(s, i, nest).len() ==> #[trigger] positions_from(
                s,
                i,
                nest,
            )[a] < #[trigger] positions_from(s, i, nest)[b],
        forall|k: int|
            0 <= k < parse_from(s, i, nest).len() ==> {
                let c = content_of(#[trigger] parse_from(s, i, nest)[k]);
                let p = positions_from(s, i, nest)[k];
                c.lineno == line_at(s, p as int) && c.colno == column_at(s, p as int)
            },
    decreases s.len() - i,
{
    if i < s.len() {
        lemma_steps_advance(s, i, nest);
        let (b, j, n) = if opens_at(s, i as int) {
            script_step(s, i, nest)
        } else {
            let (b, j) = html_step(s, i, nest);
            (b, j, nest)
        };
        lemma_positions_from(s, j, n);
        let pos = positions_from(s, i, nest);
        let blocks = parse_from(s, i, nest);
        let rest = positions_from(s, j, n);
        let p0 = content_position(s, i);
        assert(pos == seq![p0] + rest);
        assert(blocks == seq![b] + parse_from(s, j, n));
        if opens_at(s, i as int) {
            let body = body_of(s, i);
            lemma_find_pair_bounds(s, (i + 2) as nat, '?', '>');
            lemma_trim_start_len(body);
            if is_expression_body(body) {
                lemma_trim_start_len(trim_start(body).drop_first());
            }
            if j < s.len() {
                assert(body_end(s, i) < s.len());
            }
        }
        assert(rest.len() > 0 ==> p0 < j);
        assert(i <= p0);
        assert forall|a: int, c: int| 0 <= a < c < pos.len() implies #[trigger] pos[a]
            < #[trigger] pos[c] by {
            if a == 0 {
                assert(pos[c] == rest[c - 1]);
            } else {
                assert(pos[a] == rest[a - 1]);
                assert(pos[c] == rest[c - 1]);
            }
        }
        assert(p0 <= s.len());
        assert forall|k: int| 0 <= k < pos.len() implies i <= #[trigger] pos[k] <= s.len() by {
            if k > 0 {
                assert(pos[k] == rest[k - 1]);
            }
        }
        assert forall|k: int| 0 <= k < blocks.len() implies {
            let c = content_of(#[trigger] blocks[k]);
            let p = pos[k];
            c.lineno == line_at(s, p as int) && c.colno == column_at(s, p as int)
        } by {
            if k > 0 {
                assert(blocks[k] == parse_from(s, j, n)[k - 1]);
                assert(pos[k] == rest[k - 1]);
            }
        }
    }
}

proof fn lemma_same_line(s: Seq<char>, p: int, q: int)
    requires
        0 <= p <= q <= s.len(),
    ensures
        newlines_before(s, p) <= newlines_before(s, q),
        newlines_before(s, p) == newlines_before(s, q) ==> line_start(s, p) == line_start(s, q),
    decreases q - p,
{
    if p < q {
        lemma_same_line(s, p, q - 1);
    }
}

/// Blocks come in document order of their coordinates: lines never decrease
/// from one block to a later one, and blocks on the same line have strictly
/// increasing columns.
pub proof fn lemma_coordinates_increase(s: Seq<char>, a: int, b: int)
    requires
        0 <= a < b < parse_model(s).len(),
    ensures
        content_of(parse_model(s)[a]).lineno <= content_of(parse_model(s)[b]).lineno,
        content_of(parse_model(s)[a]).lineno == content_of(parse_model(s)[b]).lineno
            ==> content_of(parse_model(s)[a]).colno < content_of(parse_model(s)[b]).colno,
{
    lemma_positions_from(s, 0, 0);
    let pos = positions_from(s, 0, 0);
    assert(pos[a] < pos[b] <= s.len());
    lemma_same_line(s, pos[a] as int, pos[b] as int);
    lemma_newlines_bounded(s, pos[a] as int);
    lemma_newlines_bounded(s, pos[b] as int);
}

/// Every block's line and column are at least 1.
pub proof fn lemma_coordinates_positive(s: Seq<char>, k: int)
    requires
        0 <= k < parse_model(s).len(),
    ensures
        content_of(parse_model(s)[k]).lineno >= 1,
        content_of(parse_model(s)[k]).colno >= 1,
{
    lemma_positions_from(s, 0, 0);
    lemma_newlines_bounded(s, positions_from(s, 0, 0)[k] as int);
}

} // verus!
