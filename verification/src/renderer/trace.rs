//! A renderer that marks the blocks nobody handles.

use vstd::prelude::*;
use vstd::string::StringSliceAdditionalSpecFns;
use crate::buffer::Buffer;
use crate::renderer::list::List;
use crate::renderer::{Render, TableFlags};

verus! {

/// This renderer writes a marker for each block that it is given, which
/// makes it easy to see which handlers a renderer needs for a given
/// document.  Spans go out as they stand in the markdown.
pub struct Trace;

impl Render for Trace {
    fn code_block(&mut self, output: &mut Buffer, text: &Buffer, lang: &Buffer)
        ensures
            final(output)@ == old(output)@ + "MISSING CODE_BLOCK HANDLER\n".spec_bytes(),
            final(output).spec_unit() == old(output).spec_unit(),
            old(output).wf() ==> final(output).wf(),
    {
        output.puts("MISSING CODE_BLOCK HANDLER\n");
    }

    fn quote_block(&mut self, output: &mut Buffer, content: &Buffer)
        ensures
            final(output)@ == old(output)@ + "MISSING QUOTE_BLOCK HANDLER\n".spec_bytes(),
            final(output).spec_unit() == old(output).spec_unit(),
            old(output).wf() ==> final(output).wf(),
    {
        output.puts("MISSING QUOTE_BLOCK HANDLER\n");
    }

    fn header(&mut self, output: &mut Buffer, content: &Buffer, level: i32)
        ensures
            final(output)@ == old(output)@ + "MISSING HEADER HANDLER\n".spec_bytes(),
            final(output).spec_unit() == old(output).spec_unit(),
            old(output).wf() ==> final(output).wf(),
    {
        output.puts("MISSING HEADER HANDLER\n");
    }

    fn horizontal_rule(&mut self, output: &mut Buffer)
        ensures
            final(output)@ == old(output)@ + "MISSING HORIZONTAL_RULE HANDLER\n".spec_bytes(),
            final(output).spec_unit() == old(output).spec_unit(),
            old(output).wf() ==> final(output).wf(),
    {
        output.puts("MISSING HORIZONTAL_RULE HANDLER\n");
    }

    fn list(&mut self, output: &mut Buffer, content: &Buffer, flags: List)
        ensures
            final(output)@ == old(output)@ + "MISSING LIST HANDLER\n".spec_bytes(),
            final(output).spec_unit() == old(output).spec_unit(),
            old(output).wf() ==> final(output).wf(),
    {
        output.puts("MISSING LIST HANDLER\n");
    }

    fn list_item(&mut self, output: &mut Buffer, content: &Buffer, flags: List)
        ensures
            final(output)@ == old(output)@ + "MISSING LIST_ITEM HANDLER\n".spec_bytes(),
            final(output).spec_unit() == old(output).spec_unit(),
            old(output).wf() ==> final(output).wf(),
    {
        output.puts("MISSING LIST_ITEM HANDLER\n");
    }

    fn paragraph(&mut self, output: &mut Buffer, content: &Buffer)
        ensures
            final(output)@ == old(output)@ + "MISSING PARAGRAPH HANDLER\n".spec_bytes(),
            final(output).spec_unit() == old(output).spec_unit(),
            old(output).wf() ==> final(output).wf(),
    {
        output.puts("MISSING PARAGRAPH HANDLER\n");
    }

    fn table(&mut self, output: &mut Buffer, content: &Buffer)
        ensures
            final(output)@ == old(output)@ + "MISSING TABLE HANDLER\n".spec_bytes(),
            final(output).spec_unit() == old(output).spec_unit(),
            old(output).wf() ==> final(output).wf(),
    {
        output.puts("MISSING TABLE HANDLER\n");
    }

    fn table_header(&mut self, output: &mut Buffer, content: &Buffer)
        ensures
            final(output)@ == old(output)@ + "MISSING TABLE_HEADER HANDLER\n".spec_bytes(),
            final(output).spec_unit() == old(output).spec_unit(),
            old(output).wf() ==> final(output).wf(),
    {
        output.puts("MISSING TABLE_HEADER HANDLER\n");
    }

    fn table_body(&mut self, output: &mut Buffer, content: &Buffer)
        ensures
            final(output)@ == old(output)@ + "MISSING TABLE_BODY HANDLER\n".spec_bytes(),
            final(output).spec_unit() == old(output).spec_unit(),
            old(output).wf() ==> final(output).wf(),
    {
        output.puts("MISSING TABLE_BODY HANDLER\n");
    }

    fn table_row(&mut self, output: &mut Buffer, content: &Buffer)
        ensures
            final(output)@ == old(output)@ + "MISSING TABLE_ROW HANDLER\n".spec_bytes(),
            final(output).spec_unit() == old(output).spec_unit(),
            old(output).wf() ==> final(output).wf(),
    {
        output.puts("MISSING TABLE_ROW HANDLER\n");
    }

    fn table_cell(&mut self, output: &mut Buffer, content: &Buffer, flags: TableFlags)
        ensures
            final(output)@ == old(output)@ + "MISSING TABLE_CELL HANDLER\n".spec_bytes(),
            final(output).spec_unit() == old(output).spec_unit(),
            old(output).wf() ==> final(output).wf(),
    {
        output.puts("MISSING TABLE_CELL HANDLER\n");
    }

    fn footnotes(&mut self, output: &mut Buffer, content: &Buffer)
        ensures
            final(output)@ == old(output)@ + "MISSING FOOTNOTES HANDLER\n".spec_bytes(),
            final(output).spec_unit() == old(output).spec_unit(),
            old(output).wf() ==> final(output).wf(),
    {
        output.puts("MISSING FOOTNOTES HANDLER\n");
    }

    fn footnote_definition(&mut self, output: &mut Buffer, content: &Buffer, num: u32)
        ensures
            final(output)@ == old(output)@ + "MISSING FOOTNOTE_DEFINITION HANDLER\n".spec_bytes(),
            final(output).spec_unit() == old(output).spec_unit(),
            old(output).wf() ==> final(output).wf(),
    {
        output.puts("MISSING FOOTNOTE_DEFINITION HANDLER\n");
    }

    fn html_block(&mut self, output: &mut Buffer, text: &Buffer)
        ensures
            final(output)@ == old(output)@ + "MISSING HTML_BLOCK HANDLER\n".spec_bytes(),
            final(output).spec_unit() == old(output).spec_unit(),
            old(output).wf() ==> final(output).wf(),
    {
        output.puts("MISSING HTML_BLOCK HANDLER\n");
    }
}

} // verus!
