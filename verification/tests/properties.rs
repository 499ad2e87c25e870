use hoedown::renderer::html::{self, Flags, Html};
use hoedown::{Extension, Markdown};

const TEXTS: [&str; 7] = [
    "a",
    "plain text",
    "www and 1 2 3 words",
    "UPPER lower 0123456789",
    "trailing spaces   ",
    "(so, what; is this? 50% a/b {x} y]",
    "/, ; ? % ( ) { } ]",
];

#[test]
fn plain_text_is_a_paragraph() {
    for text in TEXTS {
        for ext in [0, hoedown::AUTOLINK, hoedown::TABLES | hoedown::FENCED_CODE, 0x7bff] {
            for flags in [0, html::HARD_WRAP, html::ESCAPE | html::USE_XHTML, 0xf] {
                let doc = Markdown::new(text).extensions(Extension::of(ext));
                let mut r = Html::new(Flags::of(flags), 0);
                assert_eq!(r.render(&doc).to_str().unwrap(), format!("<p>{}</p>\n", text));
            }
        }
    }
}

#[test]
fn plain_text_is_a_paragraph_at_any_nesting_limit_but_zero() {
    for limit in [1, 2, 16, usize::MAX] {
        let doc = Markdown::new("plain text").max_nesting(limit);
        let mut r = Html::new(Flags::empty(), 0);
        assert_eq!(r.render(&doc).to_str().unwrap(), "<p>plain text</p>\n");
    }
    let doc = Markdown::new("plain text").max_nesting(0);
    let mut r = Html::new(Flags::empty(), 0);
    assert_eq!(r.render(&doc).to_str().unwrap(), "");
}

#[test]
fn inline_render_has_no_wrapper() {
    for text in TEXTS {
        for ext in [0, hoedown::AUTOLINK, 0x7bff] {
            let doc = Markdown::new(text).extensions(Extension::of(ext));
            let mut r = Html::new(Flags::empty(), 0);
            let inline = String::from(r.render_inline(&doc).to_str().unwrap());
            let full = String::from(r.render(&doc).to_str().unwrap());
            assert_eq!(inline, text);
            assert_eq!(full, format!("<p>{}</p>\n", inline));
        }
    }
}

#[test]
fn an_extension_leaves_text_without_its_syntax() {
    let inputs = [
        "# Header\n\nSome *emphasis* and `code` here.\n\n- one\n- two\n\n> quote\n",
        "A [link](http//x.y) and an image ![i](j.png)\n\n    code\n",
        "Line one  \nline two\n\n1. item\n2. item\n",
    ];
    let bits = [
        hoedown::TABLES,
        hoedown::FENCED_CODE,
        hoedown::FOOTNOTES,
        hoedown::STRIKETHROUGH,
        hoedown::HIGHLIGHT,
        hoedown::QUOTE,
        hoedown::SUPERSCRIPT,
        hoedown::MATH,
        hoedown::MATH_EXPLICIT,
    ];
    for input in inputs {
        let mut r = Html::new(Flags::empty(), 0);
        let base = String::from(r.render(&Markdown::new(input)).to_str().unwrap());
        for bit in bits {
            let doc = Markdown::new(input).extensions(Extension::of(bit));
            assert_eq!(r.render(&doc).to_str().unwrap(), base);
        }
    }
}

#[test]
fn scenario_emphasis() {
    let doc = Markdown::new("some _emphasis_ required");
    let mut r = Html::new(Flags::empty(), 0);
    assert_eq!(r.render(&doc).to_str().unwrap(), "<p>some <em>emphasis</em> required</p>\n");
}

fn syntax_bytes(bit: u32) -> &'static [u8] {
    if bit == hoedown::TABLES {
        b"|"
    } else if bit == hoedown::FENCED_CODE {
        b"~`"
    } else if bit == hoedown::FOOTNOTES || bit == hoedown::SUPERSCRIPT {
        b"^"
    } else if bit == hoedown::AUTOLINK {
        b":@w"
    } else if bit == hoedown::STRIKETHROUGH {
        b"~"
    } else if bit == hoedown::UNDERLINE {
        b"_"
    } else if bit == hoedown::HIGHLIGHT {
        b"="
    } else if bit == hoedown::QUOTE {
        b"\""
    } else if bit == hoedown::MATH || bit == hoedown::MATH_EXPLICIT {
        b"$\\"
    } else if bit == hoedown::NO_INTRA_EMPHASIS {
        b"*_~="
    } else if bit == hoedown::SPACE_HEADERS {
        b"#"
    } else {
        b" \t"
    }
}

#[test]
fn an_extension_changes_nothing_without_its_bytes() {
    let inputs = [
        "# Header\n\nSome *emphasis* and `code` here.\n\n- one\n- two\n\n> quote\n",
        "A [link](http//x.y) and an image ![i](j.png)\n\n    code\n",
        "Line one  \nline two\n\n1. item\n2. item\n",
        "a|b\n---|---\n1|2\n",
        "~~~\ncode\n~~~\n",
        "note[^1]\n\n[^1]: the note\n",
        "see http://example.com/ and www.example.com or a@b.cd\n",
        "~~gone~~ ==kept== \"said\" 2^10 $$x$$ \\(y\\)\n",
        "intra_word_emphasis and a*b*c\n\n#tight\n",
        "*emphasis*\n\n***\n\n<div>\nblock\n</div>\n\n&amp;<b>x</b>\n",
        "[ref]\n\n[ref]: /url\n\nSetext\n======\n",
    ];
    let bits = [
        hoedown::TABLES,
        hoedown::FENCED_CODE,
        hoedown::FOOTNOTES,
        hoedown::AUTOLINK,
        hoedown::STRIKETHROUGH,
        hoedown::UNDERLINE,
        hoedown::HIGHLIGHT,
        hoedown::QUOTE,
        hoedown::SUPERSCRIPT,
        hoedown::MATH,
        hoedown::NO_INTRA_EMPHASIS,
        hoedown::SPACE_HEADERS,
        hoedown::MATH_EXPLICIT,
        hoedown::DISABLE_INDENTED_CODE,
    ];
    let mut compared = 0;
    for input in inputs {
        for bit in bits {
            if input.bytes().any(|c| syntax_bytes(bit).contains(&c)) {
                continue;
            }
            for others in [0, hoedown::TABLES | hoedown::AUTOLINK, 0x7bff & !bit] {
                let mut r = Html::new(Flags::empty(), 0);
                let without = Markdown::new(input).extensions(Extension::of(others));
                let with = Markdown::new(input).extensions(Extension::of(others | bit));
                let base = String::from(r.render(&without).to_str().unwrap());
                assert_eq!(r.render(&with).to_str().unwrap(), base);
                let inline = String::from(r.render_inline(&without).to_str().unwrap());
                assert_eq!(r.render_inline(&with).to_str().unwrap(), inline);
                compared += 1;
            }
        }
    }
    assert!(compared > 100);
}

#[test]
fn an_extension_changes_text_with_its_bytes() {
    let cases = [
        (hoedown::TABLES, "a|b\n---|---\n1|2\n"),
        (hoedown::FENCED_CODE, "~~~\ncode\n~~~\n"),
        (hoedown::FOOTNOTES, "note[^1]\n\n[^1]: the note\n"),
        (hoedown::AUTOLINK, "see http://example.com/ now\n"),
        (hoedown::STRIKETHROUGH, "~~gone~~\n"),
        (hoedown::UNDERLINE, "_under_\n"),
        (hoedown::HIGHLIGHT, "==kept==\n"),
        (hoedown::QUOTE, "\"said\"\n"),
        (hoedown::SUPERSCRIPT, "2^10\n"),
        (hoedown::MATH, "$$x$$\n"),
        (hoedown::NO_INTRA_EMPHASIS, "a*b*c\n"),
        (hoedown::SPACE_HEADERS, "#tight\n"),
        (hoedown::DISABLE_INDENTED_CODE, "    code\n"),
    ];
    for (bit, input) in cases {
        let mut r = Html::new(Flags::empty(), 0);
        let base = String::from(r.render(&Markdown::new(input)).to_str().unwrap());
        let doc = Markdown::new(input).extensions(Extension::of(bit));
        assert_ne!(r.render(&doc).to_str().unwrap(), base);
    }
}

#[test]
fn literal_text_is_escaped_and_not_curled() {
    let cases = [
        ("it's", "it&#39;s"),
        ("'quoted' text, isn't it? 100% (yes)", "&#39;quoted&#39; text, isn&#39;t it? 100% (yes)"),
        (" leading space's kept", " leading space&#39;s kept"),
        ("'", "&#39;"),
    ];
    for (text, expected) in cases {
        for ext in [0, hoedown::QUOTE, hoedown::AUTOLINK, 0x7bff] {
            let doc = Markdown::new(text).extensions(Extension::of(ext));
            let mut r = Html::new(Flags::empty(), 0);
            assert_eq!(r.render_inline(&doc).to_str().unwrap(), expected);
            if !text.starts_with(' ') {
                assert_eq!(r.render(&doc).to_str().unwrap(), format!("<p>{}</p>\n", expected));
            }
        }
    }
}
