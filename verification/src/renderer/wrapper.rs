//! Renderers that wrap another renderer.

use vstd::prelude::*;
use crate::buffer::Buffer;
use crate::renderer::list::List;
use crate::renderer::{AutoLink, Render, TableFlags};

verus! {

/// A renderer that is another renderer but for the callbacks that it
/// overrides.
///
/// Every callback has a default that hands on to the base renderer: the
/// callback of the same name runs on the renderer that `base` gives, on
/// the output as it came in and with what the callback was given, and
/// what it returns is returned.  A type that implements `Wrapper` is a
/// renderer: its callbacks are those of this trait.
pub trait Wrapper: Sized {
    type Base: Render;

    /// The renderer that is wrapped.
    fn base(&mut self) -> &mut Self::Base;

    fn code_block(&mut self, output: &mut Buffer, text: &Buffer, lang: &Buffer)
        default_ensures
            exists|s: &mut Self, base: &mut Self::Base, b: &mut Buffer|
                *s == *old(self) && *final(s) == *final(self) && #[trigger] call_ensures(
                    Self::base,
                    (s,),
                    base,
                ) && *b == *old(output) && *final(b) == *final(output)
                    && #[trigger] call_ensures(
                    <Self::Base as Render>::code_block,
                    (base, b, text, lang),
                    (),
                ),
    {
        self.base().code_block(output, text, lang);
    }

    fn quote_block(&mut self, output: &mut Buffer, content: &Buffer)
        default_ensures
            exists|s: &mut Self, base: &mut Self::Base, b: &mut Buffer|
                *s == *old(self) && *final(s) == *final(self) && #[trigger] call_ensures(
                    Self::base,
                    (s,),
                    base,
                ) && *b == *old(output) && *final(b) == *final(output)
                    && #[trigger] call_ensures(
                    <Self::Base as Render>::quote_block,
                    (base, b, content),
                    (),
                ),
    {
        self.base().quote_block(output, content);
    }

    fn header(&mut self, output: &mut Buffer, content: &Buffer, level: i32)
        default_ensures
            exists|s: &mut Self, base: &mut Self::Base, b: &mut Buffer|
                *s == *old(self) && *final(s) == *final(self) && #[trigger] call_ensures(
                    Self::base,
                    (s,),
                    base,
                ) && *b == *old(output) && *final(b) == *final(output)
                    && #[trigger] call_ensures(
                    <Self::Base as Render>::header,
                    (base, b, content, level),
                    (),
                ),
    {
        self.base().header(output, content, level);
    }

    fn horizontal_rule(&mut self, output: &mut Buffer)
        default_ensures
            exists|s: &mut Self, base: &mut Self::Base, b: &mut Buffer|
                *s == *old(self) && *final(s) == *final(self) && #[trigger] call_ensures(
                    Self::base,
                    (s,),
                    base,
                ) && *b == *old(output) && *final(b) == *final(output)
                    && #[trigger] call_ensures(
                    <Self::Base as Render>::horizontal_rule,
                    (base, b),
                    (),
                ),
    {
        self.base().horizontal_rule(output);
    }

    fn list(&mut self, output: &mut Buffer, content: &Buffer, flags: List)
        default_ensures
            exists|s: &mut Self, base: &mut Self::Base, b: &mut Buffer|
                *s == *old(self) && *final(s) == *final(self) && #[trigger] call_ensures(
                    Self::base,
                    (s,),
                    base,
                ) && *b == *old(output) && *final(b) == *final(output)
                    && #[trigger] call_ensures(
                    <Self::Base as Render>::list,
                    (base, b, content, flags),
                    (),
                ),
    {
        self.base().list(output, content, flags);
    }

    fn list_item(&mut self, output: &mut Buffer, content: &Buffer, flags: List)
        default_ensures
            exists|s: &mut Self, base: &mut Self::Base, b: &mut Buffer|
                *s == *old(self) && *final(s) == *final(self) && #[trigger] call_ensures(
                    Self::base,
                    (s,),
                    base,
                ) && *b == *old(output) && *final(b) == *final(output)
                    && #[trigger] call_ensures(
                    <Self::Base as Render>::list_item,
                    (base, b, content, flags),
                    (),
                ),
    {
        self.base().list_item(output, content, flags);
    }

    fn paragraph(&mut self, output: &mut Buffer, content: &Buffer)
        default_ensures
            exists|s: &mut Self, base: &mut Self::Base, b: &mut Buffer|
                *s == *old(self) && *final(s) == *final(self) && #[trigger] call_ensures(
                    Self::base,
                    (s,),
                    base,
                ) && *b == *old(output) && *final(b) == *final(output)
                    && #[trigger] call_ensures(
                    <Self::Base as Render>::paragraph,
                    (base, b, content),
                    (),
                ),
    {
        self.base().paragraph(output, content);
    }

    fn table(&mut self, output: &mut Buffer, content: &Buffer)
        default_ensures
            exists|s: &mut Self, base: &mut Self::Base, b: &mut Buffer|
                *s == *old(self) && *final(s) == *final(self) && #[trigger] call_ensures(
                    Self::base,
                    (s,),
                    base,
                ) && *b == *old(output) && *final(b) == *final(output)
                    && #[trigger] call_ensures(
                    <Self::Base as Render>::table,
                    (base, b, content),
                    (),
                ),
    {
        self.base().table(output, content);
    }

    fn table_header(&mut self, output: &mut Buffer, content: &Buffer)
        default_ensures
            exists|s: &mut Self, base: &mut Self::Base, b: &mut Buffer|
                *s == *old(self) && *final(s) == *final(self) && #[trigger] call_ensures(
                    Self::base,
                    (s,),
                    base,
                ) && *b == *old(output) && *final(b) == *final(output)
                    && #[trigger] call_ensures(
                    <Self::Base as Render>::table_header,
                    (base, b, content),
                    (),
                ),
    {
        self.base().table_header(output, content);
    }

    fn table_body(&mut self, output: &mut Buffer, content: &Buffer)
        default_ensures
            exists|s: &mut Self, base: &mut Self::Base, b: &mut Buffer|
                *s == *old(self) && *final(s) == *final(self) && #[trigger] call_ensures(
                    Self::base,
                    (s,),
                    base,
                ) && *b == *old(output) && *final(b) == *final(output)
                    && #[trigger] call_ensures(
                    <Self::Base as Render>::table_body,
                    (base, b, content),
                    (),
                ),
    {
        self.base().table_body(output, content);
    }

    fn table_row(&mut self, output: &mut Buffer, content: &Buffer)
        default_ensures
            exists|s: &mut Self, base: &mut Self::Base, b: &mut Buffer|
                *s == *old(self) && *final(s) == *final(self) && #[trigger] call_ensures(
                    Self::base,
                    (s,),
                    base,
                ) && *b == *old(output) && *final(b) == *final(output)
                    && #[trigger] call_ensures(
                    <Self::Base as Render>::table_row,
                    (base, b, content),
                    (),
                ),
    {
        self.base().table_row(output, content);
    }

    fn table_cell(&mut self, output: &mut Buffer, content: &Buffer, flags: TableFlags)
        default_ensures
            exists|s: &mut Self, base: &mut Self::Base, b: &mut Buffer|
                *s == *old(self) && *final(s) == *final(self) && #[trigger] call_ensures(
                    Self::base,
                    (s,),
                    base,
                ) && *b == *old(output) && *final(b) == *final(output)
                    && #[trigger] call_ensures(
                    <Self::Base as Render>::table_cell,
                    (base, b, content, flags),
                    (),
                ),
    {
        self.base().table_cell(output, content, flags);
    }

    fn footnotes(&mut self, output: &mut Buffer, content: &Buffer)
        default_ensures
            exists|s: &mut Self, base: &mut Self::Base, b: &mut Buffer|
                *s == *old(self) && *final(s) == *final(self) && #[trigger] call_ensures(
                    Self::base,
                    (s,),
                    base,
                ) && *b == *old(output) && *final(b) == *final(output)
                    && #[trigger] call_ensures(
                    <Self::Base as Render>::footnotes,
                    (base, b, content),
                    (),
                ),
    {
        self.base().footnotes(output, content);
    }

    fn footnote_definition(&mut self, output: &mut Buffer, content: &Buffer, num: u32)
        default_ensures
            exists|s: &mut Self, base: &mut Self::Base, b: &mut Buffer|
                *s == *old(self) && *final(s) == *final(self) && #[trigger] call_ensures(
                    Self::base,
                    (s,),
                    base,
                ) && *b == *old(output) && *final(b) == *final(output)
                    && #[trigger] call_ensures(
                    <Self::Base as Render>::footnote_definition,
                    (base, b, content, num),
                    (),
                ),
    {
        self.base().footnote_definition(output, content, num);
    }

    fn html_block(&mut self, output: &mut Buffer, text: &Buffer)
        default_ensures
            exists|s: &mut Self, base: &mut Self::Base, b: &mut Buffer|
                *s == *old(self) && *final(s) == *final(self) && #[trigger] call_ensures(
                    Self::base,
                    (s,),
                    base,
                ) && *b == *old(output) && *final(b) == *final(output)
                    && #[trigger] call_ensures(
                    <Self::Base as Render>::html_block,
                    (base, b, text),
                    (),
                ),
    {
        self.base().html_block(output, text);
    }

    fn autolink(
        &mut self,
        output: &mut Buffer,
        link: &Buffer,
        link_type: AutoLink,
    ) -> (handled: bool)
        default_ensures
            exists|s: &mut Self, base: &mut Self::Base, b: &mut Buffer|
                *s == *old(self) && *final(s) == *final(self) && #[trigger] call_ensures(
                    Self::base,
                    (s,),
                    base,
                ) && *b == *old(output) && *final(b) == *final(output)
                    && #[trigger] call_ensures(
                    <Self::Base as Render>::autolink,
                    (base, b, link, link_type),
                    handled,
                ),
    {
        self.base().autolink(output, link, link_type)
    }

    fn code_span(&mut self, output: &mut Buffer, text: &Buffer) -> (handled: bool)
        default_ensures
            exists|s: &mut Self, base: &mut Self::Base, b: &mut Buffer|
                *s == *old(self) && *final(s) == *final(self) && #[trigger] call_ensures(
                    Self::base,
                    (s,),
                    base,
                ) && *b == *old(output) && *final(b) == *final(output)
                    && #[trigger] call_ensures(
                    <Self::Base as Render>::code_span,
                    (base, b, text),
                    handled,
                ),
    {
        self.base().code_span(output, text)
    }

    fn double_emphasis(&mut self, output: &mut Buffer, content: &Buffer) -> (handled: bool)
        default_ensures
            exists|s: &mut Self, base: &mut Self::Base, b: &mut Buffer|
                *s == *old(self) && *final(s) == *final(self) && #[trigger] call_ensures(
                    Self::base,
                    (s,),
                    base,
                ) && *b == *old(output) && *final(b) == *final(output)
                    && #[trigger] call_ensures(
                    <Self::Base as Render>::double_emphasis,
                    (base, b, content),
                    handled,
                ),
    {
        self.base().double_emphasis(output, content)
    }

    fn emphasis(&mut self, output: &mut Buffer, content: &Buffer) -> (handled: bool)
        default_ensures
            exists|s: &mut Self, base: &mut Self::Base, b: &mut Buffer|
                *s == *old(self) && *final(s) == *final(self) && #[trigger] call_ensures(
                    Self::base,
                    (s,),
                    base,
                ) && *b == *old(output) && *final(b) == *final(output)
                    && #[trigger] call_ensures(
                    <Self::Base as Render>::emphasis,
                    (base, b, content),
                    handled,
                ),
    {
        self.base().emphasis(output, content)
    }

    fn underline(&mut self, output: &mut Buffer, content: &Buffer) -> (handled: bool)
        default_ensures
            exists|s: &mut Self, base: &mut Self::Base, b: &mut Buffer|
                *s == *old(self) && *final(s) == *final(self) && #[trigger] call_ensures(
                    Self::base,
                    (s,),
                    base,
                ) && *b == *old(output) && *final(b) == *final(output)
                    && #[trigger] call_ensures(
                    <Self::Base as Render>::underline,
                    (base, b, content),
                    handled,
                ),
    {
        self.base().underline(output, content)
    }

    fn highlight(&mut self, output: &mut Buffer, content: &Buffer) -> (handled: bool)
        default_ensures
            exists|s: &mut Self, base: &mut Self::Base, b: &mut Buffer|
                *s == *old(self) && *final(s) == *final(self) && #[trigger] call_ensures(
                    Self::base,
                    (s,),
                    base,
                ) && *b == *old(output) && *final(b) == *final(output)
                    && #[trigger] call_ensures(
                    <Self::Base as Render>::highlight,
                    (base, b, content),
                    handled,
                ),
    {
        self.base().highlight(output, content)
    }

    fn quote_span(&mut self, output: &mut Buffer, content: &Buffer) -> (handled: bool)
        default_ensures
            exists|s: &mut Self, base: &mut Self::Base, b: &mut Buffer|
                *s == *old(self) && *final(s) == *final(self) && #[trigger] call_ensures(
                    Self::base,
                    (s,),
                    base,
                ) && *b == *old(output) && *final(b) == *final(output)
                    && #[trigger] call_ensures(
                    <Self::Base as Render>::quote_span,
                    (base, b, content),
                    handled,
                ),
    {
        self.base().quote_span(output, content)
    }

    fn image(
        &mut self,
        output: &mut Buffer,
        link: &Buffer,
        title: &Buffer,
        alt: &Buffer,
    ) -> (handled: bool)
        default_ensures
            exists|s: &mut Self, base: &mut Self::Base, b: &mut Buffer|
                *s == *old(self) && *final(s) == *final(self) && #[trigger] call_ensures(
                    Self::base,
                    (s,),
                    base,
                ) && *b == *old(output) && *final(b) == *final(output)
                    && #[trigger] call_ensures(
                    <Self::Base as Render>::image,
                    (base, b, link, title, alt),
                    handled,
                ),
    {
        self.base().image(output, link, title, alt)
    }

    fn line_break(&mut self, output: &mut Buffer) -> (handled: bool)
        default_ensures
            exists|s: &mut Self, base: &mut Self::Base, b: &mut Buffer|
                *s == *old(self) && *final(s) == *final(self) && #[trigger] call_ensures(
                    Self::base,
                    (s,),
                    base,
                ) && *b == *old(output) && *final(b) == *final(output)
                    && #[trigger] call_ensures(
                    <Self::Base as Render>::line_break,
                    (base, b),
                    handled,
                ),
    {
        self.base().line_break(output)
    }

    fn link(
        &mut self,
        output: &mut Buffer,
        content: &Buffer,
        link: &Buffer,
        title: &Buffer,
    ) -> (handled: bool)
        default_ensures
            exists|s: &mut Self, base: &mut Self::Base, b: &mut Buffer|
                *s == *old(self) && *final(s) == *final(self) && #[trigger] call_ensures(
                    Self::base,
                    (s,),
                    base,
                ) && *b == *old(output) && *final(b) == *final(output)
                    && #[trigger] call_ensures(
                    <Self::Base as Render>::link,
                    (base, b, content, link, title),
                    handled,
                ),
    {
        self.base().link(output, content, link, title)
    }

    fn triple_emphasis(&mut self, output: &mut Buffer, content: &Buffer) -> (handled: bool)
        default_ensures
            exists|s: &mut Self, base: &mut Self::Base, b: &mut Buffer|
                *s == *old(self) && *final(s) == *final(self) && #[trigger] call_ensures(
                    Self::base,
                    (s,),
                    base,
                ) && *b == *old(output) && *final(b) == *final(output)
                    && #[trigger] call_ensures(
                    <Self::Base as Render>::triple_emphasis,
                    (base, b, content),
                    handled,
                ),
    {
        self.base().triple_emphasis(output, content)
    }

    fn strikethrough(&mut self, output: &mut Buffer, content: &Buffer) -> (handled: bool)
        default_ensures
            exists|s: &mut Self, base: &mut Self::Base, b: &mut Buffer|
                *s == *old(self) && *final(s) == *final(self) && #[trigger] call_ensures(
                    Self::base,
                    (s,),
                    base,
                ) && *b == *old(output) && *final(b) == *final(output)
                    && #[trigger] call_ensures(
                    <Self::Base as Render>::strikethrough,
                    (base, b, content),
                    handled,
                ),
    {
        self.base().strikethrough(output, content)
    }

    fn superscript(&mut self, output: &mut Buffer, content: &Buffer) -> (handled: bool)
        default_ensures
            exists|s: &mut Self, base: &mut Self::Base, b: &mut Buffer|
                *s == *old(self) && *final(s) == *final(self) && #[trigger] call_ensures(
                    Self::base,
                    (s,),
                    base,
                ) && *b == *old(output) && *final(b) == *final(output)
                    && #[trigger] call_ensures(
                    <Self::Base as Render>::superscript,
                    (base, b, content),
                    handled,
                ),
    {
        self.base().superscript(output, content)
    }

    fn footnote_reference(&mut self, output: &mut Buffer, num: u32) -> (handled: bool)
        default_ensures
            exists|s: &mut Self, base: &mut Self::Base, b: &mut Buffer|
                *s == *old(self) && *final(s) == *final(self) && #[trigger] call_ensures(
                    Self::base,
                    (s,),
                    base,
                ) && *b == *old(output) && *final(b) == *final(output)
                    && #[trigger] call_ensures(
                    <Self::Base as Render>::footnote_reference,
                    (base, b, num),
                    handled,
                ),
    {
        self.base().footnote_reference(output, num)
    }

    fn math(&mut self, output: &mut Buffer, text: &Buffer, displaymode: i32) -> (handled: bool)
        default_ensures
            exists|s: &mut Self, base: &mut Self::Base, b: &mut Buffer|
                *s == *old(self) && *final(s) == *final(self) && #[trigger] call_ensures(
                    Self::base,
                    (s,),
                    base,
                ) && *b == *old(output) && *final(b) == *final(output)
                    && #[trigger] call_ensures(
                    <Self::Base as Render>::math,
                    (base, b, text, displaymode),
                    handled,
                ),
    {
        self.base().math(output, text, displaymode)
    }

    fn html_span(&mut self, output: &mut Buffer, text: &Buffer) -> (handled: bool)
        default_ensures
            exists|s: &mut Self, base: &mut Self::Base, b: &mut Buffer|
                *s == *old(self) && *final(s) == *final(self) && #[trigger] call_ensures(
                    Self::base,
                    (s,),
                    base,
                ) && *b == *old(output) && *final(b) == *final(output)
                    && #[trigger] call_ensures(
                    <Self::Base as Render>::html_span,
                    (base, b, text),
                    handled,
                ),
    {
        self.base().html_span(output, text)
    }

    fn entity(&mut self, output: &mut Buffer, text: &Buffer)
        default_ensures
            exists|s: &mut Self, base: &mut Self::Base, b: &mut Buffer|
                *s == *old(self) && *final(s) == *final(self) && #[trigger] call_ensures(
                    Self::base,
                    (s,),
                    base,
                ) && *b == *old(output) && *final(b) == *final(output)
                    && #[trigger] call_ensures(
                    <Self::Base as Render>::entity,
                    (base, b, text),
                    (),
                ),
    {
        self.base().entity(output, text);
    }

    fn normal_text(&mut self, output: &mut Buffer, text: &Buffer)
        default_ensures
            exists|s: &mut Self, base: &mut Self::Base, b: &mut Buffer|
                *s == *old(self) && *final(s) == *final(self) && #[trigger] call_ensures(
                    Self::base,
                    (s,),
                    base,
                ) && *b == *old(output) && *final(b) == *final(output)
                    && #[trigger] call_ensures(
                    <Self::Base as Render>::normal_text,
                    (base, b, text),
                    (),
                ),
    {
        self.base().normal_text(output, text);
    }

    fn before_render(&mut self, output: &mut Buffer, inline_render: bool)
        default_ensures
            exists|s: &mut Self, base: &mut Self::Base, b: &mut Buffer|
                *s == *old(self) && *final(s) == *final(self) && #[trigger] call_ensures(
                    Self::base,
                    (s,),
                    base,
                ) && *b == *old(output) && *final(b) == *final(output)
                    && #[trigger] call_ensures(
                    <Self::Base as Render>::before_render,
                    (base, b, inline_render),
                    (),
                ),
    {
        self.base().before_render(output, inline_render);
    }

    fn after_render(&mut self, output: &mut Buffer, inline_render: bool)
        default_ensures
            exists|s: &mut Self, base: &mut Self::Base, b: &mut Buffer|
                *s == *old(self) && *final(s) == *final(self) && #[trigger] call_ensures(
                    Self::base,
                    (s,),
                    base,
                ) && *b == *old(output) && *final(b) == *final(output)
                    && #[trigger] call_ensures(
                    <Self::Base as Render>::after_render,
                    (base, b, inline_render),
                    (),
                ),
    {
        self.base().after_render(output, inline_render);
    }
}

impl<W: Wrapper> Render for W {
    fn code_block(&mut self, output: &mut Buffer, text: &Buffer, lang: &Buffer)
        ensures
            exists|a: &mut W, b: &mut Buffer|
                *a == *old(self) && *final(a) == *final(self) && *b == *old(output) && *final(b)
                    == *final(output) && #[trigger] call_ensures(
                    <W as Wrapper>::code_block,
                    (a, b, text, lang),
                    (),
                ),
    {
        Wrapper::code_block(self, output, text, lang);
    }

    fn quote_block(&mut self, output: &mut Buffer, content: &Buffer)
        ensures
            exists|a: &mut W, b: &mut Buffer|
                *a == *old(self) && *final(a) == *final(self) && *b == *old(output) && *final(b)
                    == *final(output) && #[trigger] call_ensures(
                    <W as Wrapper>::quote_block,
                    (a, b, content),
                    (),
                ),
    {
        Wrapper::quote_block(self, output, content);
    }

    fn header(&mut self, output: &mut Buffer, content: &Buffer, level: i32)
        ensures
            exists|a: &mut W, b: &mut Buffer|
                *a == *old(self) && *final(a) == *final(self) && *b == *old(output) && *final(b)
                    == *final(output) && #[trigger] call_ensures(
                    <W as Wrapper>::header,
                    (a, b, content, level),
                    (),
                ),
    {
        Wrapper::header(self, output, content, level);
    }

    fn horizontal_rule(&mut self, output: &mut Buffer)
        ensures
            exists|a: &mut W, b: &mut Buffer|
                *a == *old(self) && *final(a) == *final(self) && *b == *old(output) && *final(b)
                    == *final(output) && #[trigger] call_ensures(
                    <W as Wrapper>::horizontal_rule,
                    (a, b),
                    (),
                ),
    {
        Wrapper::horizontal_rule(self, output);
    }

    fn list(&mut self, output: &mut Buffer, content: &Buffer, flags: List)
        ensures
            exists|a: &mut W, b: &mut Buffer|
                *a == *old(self) && *final(a) == *final(self) && *b == *old(output) && *final(b)
                    == *final(output) && #[trigger] call_ensures(
                    <W as Wrapper>::list,
                    (a, b, content, flags),
                    (),
                ),
    {
        Wrapper::list(self, output, content, flags);
    }

    fn list_item(&mut self, output: &mut Buffer, content: &Buffer, flags: List)
        ensures
            exists|a: &mut W, b: &mut Buffer|
                *a == *old(self) && *final(a) == *final(self) && *b == *old(output) && *final(b)
                    == *final(output) && #[trigger] call_ensures(
                    <W as Wrapper>::list_item,
                    (a, b, content, flags),
                    (),
                ),
    {
        Wrapper::list_item(self, output, content, flags);
    }

    fn paragraph(&mut self, output: &mut Buffer, content: &Buffer)
        ensures
            exists|a: &mut W, b: &mut Buffer|
                *a == *old(self) && *final(a) == *final(self) && *b == *old(output) && *final(b)
                    == *final(output) && #[trigger] call_ensures(
                    <W as Wrapper>::paragraph,
                    (a, b, content),
                    (),
                ),
    {
        Wrapper::paragraph(self, output, content);
    }

    fn table(&mut self, output: &mut Buffer, content: &Buffer)
        ensures
            exists|a: &mut W, b: &mut Buffer|
                *a == *old(self) && *final(a) == *final(self) && *b == *old(output) && *final(b)
                    == *final(output) && #[trigger] call_ensures(
                    <W as Wrapper>::table,
                    (a, b, content),
                    (),
                ),
    {
        Wrapper::table(self, output, content);
    }

    fn table_header(&mut self, output: &mut Buffer, content: &Buffer)
        ensures
            exists|a: &mut W, b: &mut Buffer|
                *a == *old(self) && *final(a) == *final(self) && *b == *old(output) && *final(b)
                    == *final(output) && #[trigger] call_ensures(
                    <W as Wrapper>::table_header,
                    (a, b, content),
                    (),
                ),
    {
        Wrapper::table_header(self, output, content);
    }

    fn table_body(&mut self, output: &mut Buffer, content: &Buffer)
        ensures
            exists|a: &mut W, b: &mut Buffer|
                *a == *old(self) && *final(a) == *final(self) && *b == *old(output) && *final(b)
                    == *final(output) && #[trigger] call_ensures(
                    <W as Wrapper>::table_body,
                    (a, b, content),
                    (),
                ),
    {
        Wrapper::table_body(self, output, content);
    }

    fn table_row(&mut self, output: &mut Buffer, content: &Buffer)
        ensures
            exists|a: &mut W, b: &mut Buffer|
                *a == *old(self) && *final(a) == *final(self) && *b == *old(output) && *final(b)
                    == *final(output) && #[trigger] call_ensures(
                    <W as Wrapper>::table_row,
                    (a, b, content),
                    (),
                ),
    {
        Wrapper::table_row(self, output, content);
    }

    fn table_cell(&mut self, output: &mut Buffer, content: &Buffer, flags: TableFlags)
        ensures
            exists|a: &mut W, b: &mut Buffer|
                *a == *old(self) && *final(a) == *final(self) && *b == *old(output) && *final(b)
                    == *final(output) && #[trigger] call_ensures(
                    <W as Wrapper>::table_cell,
                    (a, b, content, flags),
                    (),
                ),
    {
        Wrapper::table_cell(self, output, content, flags);
    }

    fn footnotes(&mut self, output: &mut Buffer, content: &Buffer)
        ensures
            exists|a: &mut W, b: &mut Buffer|
                *a == *old(self) && *final(a) == *final(self) && *b == *old(output) && *final(b)
                    == *final(output) && #[trigger] call_ensures(
                    <W as Wrapper>::footnotes,
                    (a, b, content),
                    (),
                ),
    {
        Wrapper::footnotes(self, output, content);
    }

    fn footnote_definition(&mut self, output: &mut Buffer, content: &Buffer, num: u32)
        ensures
            exists|a: &mut W, b: &mut Buffer|
                *a == *old(self) && *final(a) == *final(self) && *b == *old(output) && *final(b)
                    == *final(output) && #[trigger] call_ensures(
                    <W as Wrapper>::footnote_definition,
                    (a, b, content, num),
                    (),
                ),
    {
        Wrapper::footnote_definition(self, output, content, num);
    }

    fn html_block(&mut self, output: &mut Buffer, text: &Buffer)
        ensures
            exists|a: &mut W, b: &mut Buffer|
                *a == *old(self) && *final(a) == *final(self) && *b == *old(output) && *final(b)
                    == *final(output) && #[trigger] call_ensures(
                    <W as Wrapper>::html_block,
                    (a, b, text),
                    (),
                ),
    {
        Wrapper::html_block(self, output, text);
    }

    fn autolink(
        &mut self,
        output: &mut Buffer,
        link: &Buffer,
        link_type: AutoLink,
    ) -> (handled: bool)
        ensures
            exists|a: &mut W, b: &mut Buffer|
                *a == *old(self) && *final(a) == *final(self) && *b == *old(output) && *final(b)
                    == *final(output) && #[trigger] call_ensures(
                    <W as Wrapper>::autolink,
                    (a, b, link, link_type),
                    handled,
                ),
    {
        Wrapper::autolink(self, output, link, link_type)
    }

    fn code_span(&mut self, output: &mut Buffer, text: &Buffer) -> (handled: bool)
        ensures
            exists|a: &mut W, b: &mut Buffer|
                *a == *old(self) && *final(a) == *final(self) && *b == *old(output) && *final(b)
                    == *final(output) && #[trigger] call_ensures(
                    <W as Wrapper>::code_span,
                    (a, b, text),
                    handled,
                ),
    {
        Wrapper::code_span(self, output, text)
    }

    fn double_emphasis(&mut self, output: &mut Buffer, content: &Buffer) -> (handled: bool)
        ensures
            exists|a: &mut W, b: &mut Buffer|
                *a == *old(self) && *final(a) == *final(self) && *b == *old(output) && *final(b)
                    == *final(output) && #[trigger] call_ensures(
                    <W as Wrapper>::double_emphasis,
                    (a, b, content),
                    handled,
                ),
    {
        Wrapper::double_emphasis(self, output, content)
    }

    fn emphasis(&mut self, output: &mut Buffer, content: &Buffer) -> (handled: bool)
        ensures
            exists|a: &mut W, b: &mut Buffer|
                *a == *old(self) && *final(a) == *final(self) && *b == *old(output) && *final(b)
                    == *final(output) && #[trigger] call_ensures(
                    <W as Wrapper>::emphasis,
                    (a, b, content),
                    handled,
                ),
    {
        Wrapper::emphasis(self, output, content)
    }

    fn underline(&mut self, output: &mut Buffer, content: &Buffer) -> (handled: bool)
        ensures
            exists|a: &mut W, b: &mut Buffer|
                *a == *old(self) && *final(a) == *final(self) && *b == *old(output) && *final(b)
                    == *final(output) && #[trigger] call_ensures(
                    <W as Wrapper>::underline,
                    (a, b, content),
                    handled,
                ),
    {
        Wrapper::underline(self, output, content)
    }

    fn highlight(&mut self, output: &mut Buffer, content: &Buffer) -> (handled: bool)
        ensures
            exists|a: &mut W, b: &mut Buffer|
                *a == *old(self) && *final(a) == *final(self) && *b == *old(output) && *final(b)
                    == *final(output) && #[trigger] call_ensures(
                    <W as Wrapper>::highlight,
                    (a, b, content),
                    handled,
                ),
    {
        Wrapper::highlight(self, output, content)
    }

    fn quote_span(&mut self, output: &mut Buffer, content: &Buffer) -> (handled: bool)
        ensures
            exists|a: &mut W, b: &mut Buffer|
                *a == *old(self) && *final(a) == *final(self) && *b == *old(output) && *final(b)
                    == *final(output) && #[trigger] call_ensures(
                    <W as Wrapper>::quote_span,
                    (a, b, content),
                    handled,
                ),
    {
        Wrapper::quote_span(self, output, content)
    }

    fn image(
        &mut self,
        output: &mut Buffer,
        link: &Buffer,
        title: &Buffer,
        alt: &Buffer,
    ) -> (handled: bool)
        ensures
            exists|a: &mut W, b: &mut Buffer|
                *a == *old(self) && *final(a) == *final(self) && *b == *old(output) && *final(b)
                    == *final(output) && #[trigger] call_ensures(
                    <W as Wrapper>::image,
                    (a, b, link, title, alt),
                    handled,
                ),
    {
        Wrapper::image(self, output, link, title, alt)
    }

    fn line_break(&mut self, output: &mut Buffer) -> (handled: bool)
        ensures
            exists|a: &mut W, b: &mut Buffer|
                *a == *old(self) && *final(a) == *final(self) && *b == *old(output) && *final(b)
                    == *final(output) && #[trigger] call_ensures(
                    <W as Wrapper>::line_break,
                    (a, b),
                    handled,
                ),
    {
        Wrapper::line_break(self, output)
    }

    fn link(
        &mut self,
        output: &mut Buffer,
        content: &Buffer,
        link: &Buffer,
        title: &Buffer,
    ) -> (handled: bool)
        ensures
            exists|a: &mut W, b: &mut Buffer|
                *a == *old(self) && *final(a) == *final(self) && *b == *old(output) && *final(b)
                    == *final(output) && #[trigger] call_ensures(
                    <W as Wrapper>::link,
                    (a, b, content, link, title),
                    handled,
                ),
    {
        Wrapper::link(self, output, content, link, title)
    }

    fn triple_emphasis(&mut self, output: &mut Buffer, content: &Buffer) -> (handled: bool)
        ensures
            exists|a: &mut W, b: &mut Buffer|
                *a == *old(self) && *final(a) == *final(self) && *b == *old(output) && *final(b)
                    == *final(output) && #[trigger] call_ensures(
                    <W as Wrapper>::triple_emphasis,
                    (a, b, content),
                    handled,
                ),
    {
        Wrapper::triple_emphasis(self, output, content)
    }

    fn strikethrough(&mut self, output: &mut Buffer, content: &Buffer) -> (handled: bool)
        ensures
            exists|a: &mut W, b: &mut Buffer|
                *a == *old(self) && *final(a) == *final(self) && *b == *old(output) && *final(b)
                    == *final(output) && #[trigger] call_ensures(
                    <W as Wrapper>::strikethrough,
                    (a, b, content),
                    handled,
                ),
    {
        Wrapper::strikethrough(self, output, content)
    }

    fn superscript(&mut self, output: &mut Buffer, content: &Buffer) -> (handled: bool)
        ensures
            exists|a: &mut W, b: &mut Buffer|
                *a == *old(self) && *final(a) == *final(self) && *b == *old(output) && *final(b)
                    == *final(output) && #[trigger] call_ensures(
                    <W as Wrapper>::superscript,
                    (a, b, content),
                    handled,
                ),
    {
        Wrapper::superscript(self, output, content)
    }

    fn footnote_reference(&mut self, output: &mut Buffer, num: u32) -> (handled: bool)
        ensures
            exists|a: &mut W, b: &mut Buffer|
                *a == *old(self) && *final(a) == *final(self) && *b == *old(output) && *final(b)
                    == *final(output) && #[trigger] call_ensures(
                    <W as Wrapper>::footnote_reference,
                    (a, b, num),
                    handled,
                ),
    {
        Wrapper::footnote_reference(self, output, num)
    }

    fn math(&mut self, output: &mut Buffer, text: &Buffer, displaymode: i32) -> (handled: bool)
        ensures
            exists|a: &mut W, b: &mut Buffer|
                *a == *old(self) && *final(a) == *final(self) && *b == *old(output) && *final(b)
                    == *final(output) && #[trigger] call_ensures(
                    <W as Wrapper>::math,
                    (a, b, text, displaymode),
                    handled,
                ),
    {
        Wrapper::math(self, output, text, displaymode)
    }

    fn html_span(&mut self, output: &mut Buffer, text: &Buffer) -> (handled: bool)
        ensures
            exists|a: &mut W, b: &mut Buffer|
                *a == *old(self) && *final(a) == *final(self) && *b == *old(output) && *final(b)
                    == *final(output) && #[trigger] call_ensures(
                    <W as Wrapper>::html_span,
                    (a, b, text),
                    handled,
                ),
    {
        Wrapper::html_span(self, output, text)
    }

    fn entity(&mut self, output: &mut Buffer, text: &Buffer)
        ensures
            exists|a: &mut W, b: &mut Buffer|
                *a == *old(self) && *final(a) == *final(self) && *b == *old(output) && *final(b)
                    == *final(output) && #[trigger] call_ensures(
                    <W as Wrapper>::entity,
                    (a, b, text),
                    (),
                ),
    {
        Wrapper::entity(self, output, text);
    }

    fn normal_text(&mut self, output: &mut Buffer, text: &Buffer)
        ensures
            exists|a: &mut W, b: &mut Buffer|
                *a == *old(self) && *final(a) == *final(self) && *b == *old(output) && *final(b)
                    == *final(output) && #[trigger] call_ensures(
                    <W as Wrapper>::normal_text,
                    (a, b, text),
                    (),
                ),
    {
        Wrapper::normal_text(self, output, text);
    }

    fn before_render(&mut self, output: &mut Buffer, inline_render: bool)
        ensures
            exists|a: &mut W, b: &mut Buffer|
                *a == *old(self) && *final(a) == *final(self) && *b == *old(output) && *final(b)
                    == *final(output) && #[trigger] call_ensures(
                    <W as Wrapper>::before_render,
                    (a, b, inline_render),
                    (),
                ),
    {
        Wrapper::before_render(self, output, inline_render);
    }

    fn after_render(&mut self, output: &mut Buffer, inline_render: bool)
        ensures
            exists|a: &mut W, b: &mut Buffer|
                *a == *old(self) && *final(a) == *final(self) && *b == *old(output) && *final(b)
                    == *final(output) && #[trigger] call_ensures(
                    <W as Wrapper>::after_render,
                    (a, b, inline_render),
                    (),
                ),
    {
        Wrapper::after_render(self, output, inline_render);
    }
}

} // verus!
