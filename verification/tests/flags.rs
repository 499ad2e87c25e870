use hoedown::renderer::html::{self, Flags};
use hoedown::renderer::list::{self, List};
use hoedown::renderer::{Table, TableFlags, TABLE_ALIGN_CENTER, TABLE_ALIGN_LEFT, TABLE_ALIGN_RIGHT};
use hoedown::Extension;

#[test]
fn extension_bits_are_stable() {
    assert_eq!(hoedown::TABLES, 1 << 0);
    assert_eq!(hoedown::FENCED_CODE, 1 << 1);
    assert_eq!(hoedown::FOOTNOTES, 1 << 2);
    assert_eq!(hoedown::AUTOLINK, 1 << 3);
    assert_eq!(hoedown::STRIKETHROUGH, 1 << 4);
    assert_eq!(hoedown::UNDERLINE, 1 << 5);
    assert_eq!(hoedown::HIGHLIGHT, 1 << 6);
    assert_eq!(hoedown::QUOTE, 1 << 7);
    assert_eq!(hoedown::SUPERSCRIPT, 1 << 8);
    assert_eq!(hoedown::MATH, 1 << 9);
    assert_eq!(hoedown::NO_INTRA_EMPHASIS, 1 << 11);
    assert_eq!(hoedown::SPACE_HEADERS, 1 << 12);
    assert_eq!(hoedown::MATH_EXPLICIT, 1 << 13);
    assert_eq!(hoedown::DISABLE_INDENTED_CODE, 1 << 14);
}

#[test]
fn extension_algebra() {
    let none = Extension::empty();
    assert!(none.is_empty());
    assert_eq!(none.bits(), 0);
    let a = Extension::of(hoedown::TABLES | hoedown::MATH);
    let b = Extension::of(hoedown::MATH | hoedown::QUOTE);
    assert!(!a.is_empty());
    assert_eq!(a.union(b).bits(), hoedown::TABLES | hoedown::MATH | hoedown::QUOTE);
    assert_eq!(a.intersection(b).bits(), hoedown::MATH);
    assert!(a.contains(Extension::of(hoedown::TABLES)));
    assert!(!a.contains(b));
    assert!(a.union(b).contains(a));
    assert!(a.union(b).contains(b));
    assert!(a.intersects(b));
    assert!(!a.intersects(Extension::of(hoedown::QUOTE)));
    assert!(a.enabled(hoedown::MATH));
    assert!(!a.enabled(hoedown::QUOTE));
    let mut c = a;
    c.insert(Extension::of(hoedown::QUOTE));
    assert_eq!(c, a.union(b));
    c.remove(Extension::of(hoedown::TABLES));
    assert_eq!(c, b);
}

#[test]
fn extension_from_bits() {
    assert_eq!(Extension::from_bits(hoedown::TABLES), Some(Extension::of(hoedown::TABLES)));
    assert_eq!(Extension::from_bits(1 << 10), None);
    assert_eq!(Extension::from_bits(1 << 15), None);
    assert_eq!(Extension::from_bits_truncate(0xffff_ffff), Extension::all());
    assert_eq!(Extension::all().bits(), 0x7bff);
    assert_eq!(Extension::of((1 << 10) | hoedown::QUOTE).bits(), hoedown::QUOTE);
}

#[test]
fn html_flags() {
    assert!(Flags::empty().is_empty());
    let f = Flags::of(html::ESCAPE | html::USE_XHTML | 0x100);
    assert_eq!(f.bits(), html::ESCAPE | html::USE_XHTML);
    assert!(f.contains(html::ESCAPE));
    assert!(!f.contains(html::SKIP_HTML));
    assert_eq!(f.union(Flags::of(html::HARD_WRAP)).bits(), 0xe);
}

#[test]
fn list_flags() {
    assert!(List::empty().is_empty());
    let l = List::of(list::ORDERED | 8);
    assert_eq!(l.bits(), list::ORDERED);
    assert!(l.is_ordered());
    assert!(!l.is_block());
    assert!(l.intersects(list::ORDERED | list::BLOCK));
    assert!(!l.contains(list::ORDERED | list::BLOCK));
    assert!(List::of(3).contains(list::ORDERED | list::BLOCK));
}

#[test]
fn table_flags() {
    let f = TableFlags::of(TABLE_ALIGN_CENTER, true);
    assert!(f.is_header());
    assert!(matches!(f.align(), Some(Table::Center)));
    let g = TableFlags::of(TABLE_ALIGN_LEFT, false);
    assert!(!g.is_header());
    assert!(matches!(g.align(), Some(Table::Left)));
    assert!(matches!(TableFlags::of(TABLE_ALIGN_RIGHT, false).align(), Some(Table::Right)));
    assert!(TableFlags::of(0, false).align().is_none());
}
