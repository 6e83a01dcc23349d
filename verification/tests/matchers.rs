use dart_parser::parser::class::class;
use dart_parser::parser::comment::comment;
use dart_parser::dart::{
    ClassModifier, ClassModifierSet, Comment, Dart, Directive, Export, Filter, IdentifierExt,
    Import, VarModifier, VarModifierSet,
};
use dart_parser::parser::directive::directive;
use dart_parser::parser::func::func;
use dart_parser::parser::identifier::identifier_ext;
use dart_parser::parser::{construct, node, verbatim};
use dart_parser::parser::outcome::Outcome;
use dart_parser::parser::var::var;

#[test]
fn line_comment_takes_its_line_feed() {
    let input = "// a\nx";
    let (c, end) = comment(input, 0).unwrap();
    assert_eq!(c, Comment::SingleLine("// a\n"));
    assert_eq!(&input[end..], "x");
}

#[test]
fn line_comment_ends_with_the_input() {
    let input = "// a";
    let (c, end) = comment(input, 0).unwrap();
    assert_eq!(c, Comment::SingleLine("// a"));
    assert_eq!(&input[end..], "");
}

#[test]
fn block_comment_ends_at_the_first_close() {
    let input = "/* a /* b */ c */";
    assert_eq!(comment(input, 0), Some((Comment::MultiLine("/* a /* b */"), 12)));
    assert_eq!(comment("/*/", 0), None);
    assert_eq!(comment("/**/", 0), Some((Comment::MultiLine("/**/"), 4)));
    assert_eq!(comment("/* open", 0), None);
    assert_eq!(comment("x // a", 0), None);
    assert_eq!(comment("x // a", 2), Some((Comment::SingleLine("// a"), 6)));
    assert_eq!(comment("//", 9), None);
}

#[test]
fn directive_forms() {
    assert_eq!(
        directive("import \"a.dart\" as a show B, C ;", 0),
        Outcome::Match(
            Directive::Import(Import {
                target: "a.dart",
                alias: Some("a"),
                filter: Some(Filter::Show(vec!["B", "C"])),
            }),
            32
        )
    );
    assert_eq!(
        directive("export 'src/a.dart' hide X;", 0),
        Outcome::Match(
            Directive::Export(Export {
                target: "src/a.dart",
                alias: None,
                filter: Some(Filter::Hide(vec!["X"])),
            }),
            27
        )
    );
    assert_eq!(
        directive("part'p.dart';", 0),
        Outcome::Match(Directive::Part("p.dart"), 13)
    );
    assert_eq!(directive("imports 'a';", 0), Outcome::NoMatch);
    assert_eq!(directive("import 'a' show ;", 0), Outcome::Fail);
    assert_eq!(directive("import 'a' show B, ;", 0), Outcome::Fail);
    assert_eq!(directive("import 'a\";", 0), Outcome::Fail);
    assert_eq!(directive("part 'a' as b;", 0), Outcome::Fail);
    assert_eq!(directive("import 'a';", 42), Outcome::NoMatch);
}

#[test]
fn type_reference_forms() {
    assert_eq!(
        identifier_ext("Map< String , List<int?>? >? x", 0),
        Some((
            IdentifierExt {
                name: "Map",
                type_args: vec![
                    IdentifierExt::name("String"),
                    IdentifierExt {
                        name: "List",
                        type_args: vec![IdentifierExt {
                            name: "int",
                            type_args: vec![],
                            is_nullable: true,
                        }],
                        is_nullable: true,
                    },
                ],
                is_nullable: true,
            },
            28
        ))
    );
    assert_eq!(identifier_ext("a.b.c.", 0), Some((IdentifierExt::name("a.b.c"), 5)));
    assert_eq!(identifier_ext("A<>", 0), Some((IdentifierExt::name("A"), 1)));
    assert_eq!(identifier_ext("A<B", 0), Some((IdentifierExt::name("A"), 1)));
    assert_eq!(identifier_ext("9a", 0), None);
    assert_eq!(identifier_ext("", 0), None);
    assert_eq!(identifier_ext("a", 5), None);
    assert_eq!(identifier_ext("_a$1 ", 0), Some((IdentifierExt::name("_a$1"), 4)));
}

#[test]
fn variable_without_keyword_is_no_failure() {
    assert_eq!(var("int x", 0), Outcome::NoMatch);
    assert_eq!(var("x;", 0), Outcome::NoMatch);
    assert_eq!(var("x = 1;", 0), Outcome::NoMatch);
    assert_eq!(var("final class A {}", 0), Outcome::NoMatch);
    assert_eq!(var("late x", 0), Outcome::Fail);
    assert_eq!(var("var int x;", 0), Outcome::Fail);
    assert_eq!(var("final a.b = 1;", 0), Outcome::Fail);
    assert_eq!(var("get x => 3;", 0), Outcome::NoMatch);
    assert_eq!(var("final x => 3;", 0), Outcome::Fail);
    match var("final x;", 0) {
        Outcome::Match(v, end) => {
            assert_eq!(end, 8);
            assert_eq!(v.modifiers, VarModifierSet::from_iter([VarModifier::Final]));
            assert!(v.modifiers.contains(VarModifier::Final));
            assert!(!v.modifiers.contains(VarModifier::Const));
            assert!(!v.modifiers.is_empty());
            assert_eq!(v.var_type, None);
            assert_eq!(v.name, "x");
            assert_eq!(v.initializer, None);
        }
        other => panic!("no variable: {:?}", other),
    }
}

#[test]
fn class_forms() {
    assert_eq!(class("sealed x", 0), Outcome::NoMatch);
    assert_eq!(class("class A extends {}", 0), Outcome::Fail);
    assert_eq!(class("class A implements {}", 0), Outcome::Fail);
    assert_eq!(class("class A { {", 0), Outcome::Fail);
    match class("base mixin  M{}", 0) {
        Outcome::Match(c, end) => {
            assert_eq!(end, 15);
            assert_eq!(
                c.modifiers,
                ClassModifierSet::from_iter([ClassModifier::Mixin, ClassModifier::Base])
            );
            assert!(c.modifiers.contains(ClassModifier::Base));
            assert!(!c.modifiers.contains(ClassModifier::Class));
            assert_eq!(c.name, "M");
            assert_eq!(c.body, "{}");
        }
        other => panic!("no class: {:?}", other),
    }
}

#[test]
fn function_forms() {
    assert_eq!(func("main(){}", 0), Some(("main(){}", 8)));
    assert_eq!(
        func("Stream<int> f ( a, (b) ) sync* { yield 1; } x", 0),
        Some(("Stream<int> f ( a, (b) ) sync* { yield 1; }", 43))
    );
    assert_eq!(func("f();", 0), None);
    assert_eq!(func("f() =>", 0), None);
    assert_eq!(func("f( {}", 0), None);
    assert_eq!(func("int x;", 0), None);
}

#[test]
fn verbatim_runs() {
    assert_eq!(verbatim(" \t\r\n x", 0), Some((" \t\r\n ", 5)));
    assert_eq!(verbatim("@a var x;", 0), Some(("@a", 2)));
    assert_eq!(verbatim("#!var x;", 0), Some(("#!", 2)));
    assert_eq!(verbatim("ab// c", 0), Some(("ab", 2)));
    assert_eq!(verbatim("myclass A {}", 0), Some(("myclass", 7)));
    assert_eq!(verbatim("9late x;", 0), Some(("9late", 5)));
    assert_eq!(verbatim("a+late x;", 0), Some(("a+", 2)));
    assert_eq!(verbatim("var x;", 0), None);
    assert_eq!(verbatim("", 0), None);
    assert_eq!(verbatim("\u{e9}\u{e9}", 2), Some(("\u{e9}", 4)));
}

#[test]
fn construct_order_and_node() {
    assert_eq!(
        construct("part 'a';", 0),
        Outcome::Match(Dart::Directive(Directive::Part("a")), 9)
    );
    assert_eq!(construct("part;", 0), Outcome::Fail);
    assert_eq!(construct(" part 'a';", 0), Outcome::NoMatch);
    assert_eq!(node(" part 'a';", 0), Outcome::Match(Dart::Verbatim(" "), 1));
    assert_eq!(node("x", 1), Outcome::NoMatch);
    assert_eq!(node("f() {}", 0), Outcome::Match(Dart::Func("f() {}"), 6));
    assert_eq!(node("late", 0), Outcome::Fail);
}

#[test]
fn modifier_sets() {
    let mut s = VarModifierSet::new();
    assert!(s.is_empty());
    s.insert(VarModifier::Late);
    let once = s;
    s.insert(VarModifier::Late);
    assert_eq!(s, once);
    assert_eq!(s, VarModifierSet::from_iter([VarModifier::Late, VarModifier::Late]));
    let mut c = ClassModifierSet::new();
    c.insert(ClassModifier::Sealed);
    c.insert(ClassModifier::Class);
    assert_eq!(
        c,
        ClassModifierSet::from_iter([ClassModifier::Class, ClassModifier::Sealed])
    );
    assert_eq!(ClassModifierSet::from_iter([]), ClassModifierSet::new());
}
