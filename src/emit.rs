use vstd::prelude::*;

use crate::parser::{BlockModel, CodeBlock, blocks_model};
use crate::text::{trim, trimmed};

verus! {

/// The script line that stands for one block.
pub open spec fn block_js(b: BlockModel) -> Seq<char> {
    match b {
        BlockModel::Javascript(c) => trim(c.content),
        BlockModel::Html(c) => "echo(`"@ + c.content + "`);"@,
        BlockModel::Expression(c) => "echo(String("@ + trim(c.content) + "));"@,
    }
}

/// `lines` joined with line feeds.
pub open spec fn join_lines(lines: Seq<Seq<char>>) -> Seq<char>
    decreases lines.len(),
{
    if lines.len() == 0 {
        Seq::empty()
    } else if lines.len() == 1 {
        lines[0]
    } else {
        join_lines(lines.drop_last()) + "\n"@ + lines.last()
    }
}

/// The script source that echoes literal text and evaluates every script block in order.
pub open spec fn js_of(blocks: Seq<BlockModel>) -> Seq<char> {
    join_lines(blocks.map_values(|b: BlockModel| block_js(b)))
}

/// Converts parsed blocks into one script source for bulk evaluation.
pub fn blocks_to_js(blocks: Vec<Box<CodeBlock>>) -> (r: String)
    ensures
        r@ == js_of(blocks_model(blocks@)),
{
    let ghost m = blocks_model(blocks@);
    let mut out = String::new();
    let mut i: usize = 0;
    while i < blocks.len()
        invariant
            i <= blocks@.len(),
            m == blocks_model(blocks@),
            out@ == join_lines(m.take(i as int).map_values(|b: BlockModel| block_js(b))),
        decreases blocks@.len() - i,
    {
        if i > 0 {
            out.append("\n");
        }
        let line = match &*blocks[i] {
            CodeBlock::Javascript(c) => trimmed(c.content.as_str()),
            CodeBlock::Html(c) => {
                let mut l = String::new();
                l.append("echo(`");
                l.append(c.content.as_str());
                l.append("`);");
                l
            },
            CodeBlock::Expression(c) => {
                let mut l = String::new();
                l.append("echo(String(");
                l.append(trimmed(c.content.as_str()).as_str());
                l.append("));");
                l
            },
        };
        assert(line@ == block_js(m[i as int]));
        let ghost prev = m.take(i as int).map_values(|b: BlockModel| block_js(b));
        let ghost next = m.take(i + 1).map_values(|b: BlockModel| block_js(b));
        assert(next.drop_last() =~= prev);
        assert(next.last() == line@);
        out.append(line.as_str());
        i += 1;
    }
    assert(m.take(blocks@.len() as int) =~= m);
    out
}

} // verus!
