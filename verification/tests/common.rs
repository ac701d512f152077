use std::cmp::Ordering;
use std::sync::Arc;

use lib::common::pos::{Pos, Range, RangeWrapper, SrcRange};
use lib::common::scope::ReadOnlyScope;
use lib::compile::value::Var;
use lib::util::log2;
use lib::vm::symbol::{RegSymbol, Symbolic};

fn pos(name: &str, text: &str, source: usize, line: usize, col: usize) -> Pos {
    let mut p = Pos::new(Arc::new(name.to_string()), Arc::new(text.to_string()));
    p.source = source;
    p.line = line;
    p.col = col;
    p
}

#[test]
fn log2_is_the_floor_of_the_logarithm() {
    assert_eq!(log2(1), 0);
    assert_eq!(log2(2), 1);
    assert_eq!(log2(8), 3);
    assert_eq!(log2(9), 3);
    assert_eq!(log2(1023), 9);
    assert_eq!(log2(usize::MAX), usize::BITS as usize - 1);
}

#[test]
fn pos_moves_by_column_and_line() {
    let mut p = Pos::new(Arc::new("n".to_string()), Arc::new("ab\nc".to_string()));
    assert_eq!((p.source, p.line, p.col), (0, 0, 0));
    p.adv();
    p.adv();
    assert_eq!((p.source, p.line, p.col), (2, 0, 2));
    p.line();
    assert_eq!((p.source, p.line, p.col), (2, 1, 0));
    assert_eq!(p.display_line_col(), (2, 1));
    let d = Pos::default();
    assert_eq!((d.source, d.line, d.col), (0, 0, 0));
}

#[test]
fn pos_max_and_min_go_by_line_then_column() {
    let a = pos("n", "", 0, 1, 5);
    let b = pos("n", "", 0, 2, 0);
    assert_eq!(a.max(&b).line, 2);
    assert_eq!(a.min(&b).line, 1);
    let c = pos("n", "", 0, 1, 7);
    assert_eq!(a.max(&c).col, 7);
    assert_eq!(c.min(&a).col, 5);
}

#[test]
fn positions_compare_within_one_source_only() {
    let a = pos("one", "", 1, 0, 1);
    let b = pos("one", "", 3, 0, 3);
    let other = pos("two", "", 1, 0, 1);
    assert_eq!(a.partial_cmp(&b), Some(Ordering::Less));
    assert_eq!(b.partial_cmp(&a), Some(Ordering::Greater));
    assert_eq!(a.partial_cmp(&a.clone()), Some(Ordering::Equal));
    assert_eq!(a.partial_cmp(&other), None);
    assert!(a < b);
}

#[test]
fn ranges_cover_text_and_unite() {
    let text = "let x = 1";
    let r1 = SrcRange::new(pos("f", text, 0, 0, 0), pos("f", text, 3, 0, 3));
    let r2 = SrcRange::new(pos("f", text, 4, 0, 4), pos("f", text, 9, 0, 9));
    assert_eq!(r1.source_text(), "let");
    assert_eq!(r1.source_name(), "f");
    assert_eq!(r1.start().source, 0);
    assert_eq!(r2.end().source, 9);
    let u = Range::Src(r1.clone()).union(&Range::Src(r2.clone()));
    assert_eq!(u.source_text(), "let x = 1");
    let u2 = Range::Src(r2).union(&Range::Src(r1));
    assert_eq!(u2.source_text(), "let x = 1");
    let b = Range::Builtin.union(&u);
    assert_eq!(b, Range::Builtin);
    assert_eq!(b.source_text(), "<builtin>");
    assert_eq!(b.source_name(), "<builtin>");
}

#[test]
fn range_wrappers_keep_their_range() {
    let w = RangeWrapper::new(Range::Builtin, 20);
    let m = w.map(|v| v + 1);
    assert_eq!(*m.as_inner(), 21);
    assert_eq!(m.range(), Range::Builtin);
    assert_eq!(w.into_inner(), 20);
    // wrappers compare by value alone
    let text = "ab";
    let r = Range::Src(SrcRange::new(pos("f", text, 0, 0, 0), pos("f", text, 1, 0, 1)));
    assert_eq!(RangeWrapper::new(r, 5), RangeWrapper::new(Range::Builtin, 5));
}

fn var(name: &str, global: usize, local: usize) -> Var {
    Var::new(name.to_string(), RegSymbol { global, local })
}

#[test]
fn read_only_scope_finds_most_local_first() {
    let mut scope: ReadOnlyScope<Var> = ReadOnlyScope::new();
    scope.push_layer();
    scope.insert(var("a", 0, 0));
    scope.insert(var("b", 0, 1));
    scope.push_layer();
    scope.insert(var("a", 1, 0));
    assert_eq!(scope.depth(), 2);
    assert_eq!(scope.get_by_name("a").unwrap().symbol(), RegSymbol { global: 1, local: 0 });
    assert_eq!(scope.get_by_name("b").unwrap().symbol(), RegSymbol { global: 0, local: 1 });
    assert!(scope.get_local_by_name("b").is_none());
    assert_eq!(scope.get_local_by_name("a").unwrap().symbol(), RegSymbol { global: 1, local: 0 });
    assert_eq!(scope.get_by_symbol(RegSymbol { global: 0, local: 0 }).unwrap().name(), "a");
    assert!(scope.get_local_by_symbol(RegSymbol { global: 0, local: 0 }).is_none());
    let names: Vec<&str> = scope.iter().iter().map(|v| v.name()).collect();
    assert_eq!(names, vec!["a", "a", "b"]);
    assert_eq!(scope.get_by(|v: &Var| v.symbol.local == 1).unwrap().name(), "b");
    assert_eq!(scope.get_local_by(|v: &Var| v.name() == "a").unwrap().symbol().global, 1);
    let popped = scope.pop_layer();
    assert_eq!(popped, vec![RegSymbol { global: 1, local: 0 }]);
    assert_eq!(scope.get_by_name("a").unwrap().symbol(), RegSymbol { global: 0, local: 0 });
    // every value stays registered, ordered by symbol
    assert_eq!(scope.iter_all().len(), 3);
    let old = scope.replace(var("z", 0, 1));
    assert_eq!(old.name(), "b");
    assert_eq!(scope.get_by_name("z").unwrap().symbol(), RegSymbol { global: 0, local: 1 });
    let all: Vec<String> = scope.into_all().into_iter().map(|v| v.name).collect();
    assert_eq!(all, vec!["a".to_string(), "z".to_string(), "a".to_string()]);
}

#[test]
fn span_text_is_cut_at_byte_offsets() {
    let text = "\u{e9}ab";
    let r = SrcRange::new(pos("f", text, 2, 0, 2), pos("f", text, 3, 0, 3));
    assert_eq!(r.source_text(), "a");
    let whole = SrcRange::new(pos("f", text, 0, 0, 0), pos("f", text, 4, 0, 4));
    assert_eq!(whole.source_text(), text);
}

#[test]
fn read_only_scope_lookup_agrees_with_listing() {
    let mut scope: ReadOnlyScope<Var> = ReadOnlyScope::new();
    scope.push_layer();
    scope.insert(var("a", 0, 0));
    scope.insert(var("b", 0, 1));
    scope.push_layer();
    scope.insert(var("a", 1, 0));
    scope.insert(var("c", 1, 1));
    let preds: Vec<Box<dyn Fn(&Var) -> bool>> = vec![
        Box::new(|v: &Var| v.name() == "a"),
        Box::new(|v: &Var| v.symbol.local == 1),
        Box::new(|v: &Var| v.symbol.global == 0),
        Box::new(|v: &Var| v.name() == "d"),
    ];
    for pred in preds.iter() {
        let found = scope.get_by(|v: &Var| pred(v)).map(|v| v.symbol());
        let listed = scope.iter().into_iter().find(|v| pred(v)).map(|v| v.symbol());
        assert_eq!(found, listed);
    }
    assert_eq!(scope.get_by(|v: &Var| v.name() == "a").unwrap().symbol(), RegSymbol { global: 1, local: 0 });
}
