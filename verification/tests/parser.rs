use dart_parser::dart::{
    Class, ClassModifier, ClassModifierSet, Comment, Dart, Directive, IdentifierExt, Import,
    ParseError, Var, VarModifier, VarModifierSet,
};
use dart_parser::parser::{parse, parse_spanned};

const DART_MIXED: &str = r#"
import 'dart:math';
import 'package:path/path.dart' as p;

part 'types.g.dart';

// A comment
/*
Another comment
*/
const category = "mixed bag";
late final int crash_count;

class Base {
  String id;
}

class Record extends Base implements A<Future<void>, B?>, C {
  String name;
}
"#;

#[test]
fn mixed_test() {
    assert_eq!(
        parse(DART_MIXED.trim_start()),
        Ok((
            "",
            vec![
                Dart::Directive(Directive::Import(Import::target("dart:math"))),
                Dart::Verbatim("\n"),
                Dart::Directive(Directive::Import(Import::target_as(
                    "package:path/path.dart",
                    "p"
                ))),
                Dart::Verbatim("\n\n"),
                Dart::Directive(Directive::Part("types.g.dart")),
                Dart::Verbatim("\n\n"),
                Dart::Comment(Comment::SingleLine("// A comment\n")),
                Dart::Comment(Comment::MultiLine("/*\nAnother comment\n*/")),
                Dart::Verbatim("\n"),
                Dart::Var(Var {
                    modifiers: VarModifierSet::from_iter([VarModifier::Const]),
                    var_type: None,
                    name: "category",
                    initializer: Some("\"mixed bag\""),
                }),
                Dart::Verbatim("\n"),
                Dart::Var(Var {
                    modifiers: VarModifierSet::from_iter([
                        VarModifier::Late,
                        VarModifier::Final
                    ]),
                    var_type: Some(IdentifierExt::name("int")),
                    name: "crash_count",
                    initializer: None,
                }),
                Dart::Verbatim("\n\n"),
                Dart::Class(Class {
                    modifiers: ClassModifierSet::from_iter([ClassModifier::Class]),
                    name: "Base",
                    extends: None,
                    implements: Vec::default(),
                    body: "{\n  String id;\n}",
                }),
                Dart::Verbatim("\n\n"),
                Dart::Class(Class {
                    modifiers: ClassModifierSet::from_iter([ClassModifier::Class]),
                    name: "Record",
                    extends: Some(IdentifierExt::name("Base")),
                    implements: vec![
                        IdentifierExt {
                            name: "A",
                            type_args: vec![
                                IdentifierExt {
                                    name: "Future",
                                    type_args: vec![IdentifierExt::name("void")],
                                    is_nullable: false,
                                },
                                IdentifierExt {
                                    name: "B",
                                    type_args: Vec::default(),
                                    is_nullable: true,
                                },
                            ],
                            is_nullable: false,
                        },
                        IdentifierExt::name("C")
                    ],
                    body: "{\n  String name;\n}",
                }),
                Dart::Verbatim("\n")
            ]
        ))
    );
}

#[test]
fn empty_input_has_no_nodes() {
    assert_eq!(parse(""), Ok(("", vec![])));
}

#[test]
fn spans_rebuild_the_input() {
    let input = DART_MIXED;
    let (texts, nodes) = parse_spanned(input).unwrap();
    assert_eq!(texts.len(), nodes.len());
    assert_eq!(texts.concat(), input);
    assert_eq!(texts[0], "\n");
    assert_eq!(texts[1], "import 'dart:math';");
    assert_eq!(nodes, parse(input).unwrap().1);
}

#[test]
fn spans_rebuild_text_outside_the_grammar() {
    let input = "@override\nx.y(1);\u{e9}t\u{e9} \u{1F600}! foo.bar = 3;";
    let (texts, nodes) = parse_spanned(input).unwrap();
    assert_eq!(texts.concat(), input);
    assert_eq!(nodes[0], Dart::Verbatim("@override"));
    assert_eq!(nodes[1], Dart::Verbatim("\n"));
}

#[test]
fn success_leaves_nothing() {
    let (rest, nodes) = parse("var x;  \n\t").unwrap();
    assert_eq!(rest, "");
    assert_eq!(nodes.len(), 2);
    assert_eq!(nodes[1], Dart::Verbatim("  \n\t"));
}

#[test]
fn repeated_modifier_counts_once() {
    let twice = parse("late late final int x;").unwrap().1;
    let once = parse("late final int x;").unwrap().1;
    let swapped = parse("final late int x;").unwrap().1;
    let expected = vec![Dart::Var(Var {
        modifiers: VarModifierSet::from_iter([VarModifier::Final, VarModifier::Late]),
        var_type: Some(IdentifierExt::name("int")),
        name: "x",
        initializer: None,
    })];
    assert_eq!(twice, expected);
    assert_eq!(once, expected);
    assert_eq!(swapped, expected);
}

#[test]
fn nullability_belongs_to_each_type() {
    let nodes = parse("A<Future<void>, B?> x;").unwrap().1;
    match &nodes[0] {
        Dart::Var(v) => {
            let a = v.var_type.as_ref().unwrap();
            assert_eq!(a.name, "A");
            assert!(!a.is_nullable);
            assert_eq!(a.type_args.len(), 2);
            assert_eq!(a.type_args[0].name, "Future");
            assert!(!a.type_args[0].is_nullable);
            assert_eq!(a.type_args[0].type_args, vec![IdentifierExt::name("void")]);
            assert_eq!(a.type_args[1].name, "B");
            assert!(a.type_args[1].is_nullable);
        }
        other => panic!("not a variable: {:?}", other),
    }
}

#[test]
fn class_body_runs_to_the_matching_brace() {
    let input = "class C { void f() { if (x) { } } }";
    assert_eq!(
        parse(input),
        Ok((
            "",
            vec![Dart::Class(Class {
                modifiers: ClassModifierSet::from_iter([ClassModifier::Class]),
                name: "C",
                extends: None,
                implements: vec![],
                body: "{ void f() { if (x) { } } }",
            })]
        ))
    );
}

#[test]
fn failed_directive_is_a_syntax_error() {
    assert_eq!(
        parse("var a;\nimport dart;"),
        Err(ParseError::Syntax { offset: 7 })
    );
    assert_eq!(parse("part 'a.dart'"), Err(ParseError::Syntax { offset: 0 }));
    assert_eq!(
        parse("import 'a' as ;"),
        Err(ParseError::Syntax { offset: 0 })
    );
    assert_eq!(ParseError::Syntax { offset: 7 }.offset(), 7);
    assert_eq!(ParseError::Unconsumed { offset: 3 }.offset(), 3);
}

#[test]
fn failed_declaration_is_a_syntax_error() {
    assert_eq!(parse("  const x = 1"), Err(ParseError::Syntax { offset: 2 }));
    assert_eq!(parse("final x = ;"), Err(ParseError::Syntax { offset: 0 }));
    assert_eq!(parse("class {}"), Err(ParseError::Syntax { offset: 0 }));
    assert_eq!(
        parse("\nabstract class A {"),
        Err(ParseError::Syntax { offset: 1 })
    );
}

#[test]
fn unknown_text_never_fails() {
    for input in ["@", "}", "x", "1 + 2", "\u{1F600}", "int x", "/* open", "a(b"] {
        let (texts, nodes) = parse_spanned(input).unwrap();
        assert_eq!(texts.concat(), input);
        assert!(nodes.iter().all(|n| matches!(n, Dart::Verbatim(_))));
    }
}

#[test]
fn words_are_not_cut() {
    assert_eq!(
        parse("int get x => 3;"),
        Ok((
            "",
            vec![
                Dart::Verbatim("int"),
                Dart::Verbatim(" "),
                Dart::Verbatim("get"),
                Dart::Verbatim(" "),
                Dart::Verbatim("x"),
                Dart::Verbatim(" "),
                Dart::Verbatim("=>"),
                Dart::Verbatim(" "),
                Dart::Verbatim("3;"),
            ]
        ))
    );
    assert_eq!(
        parse("subclass A {}"),
        Ok((
            "",
            vec![
                Dart::Verbatim("subclass"),
                Dart::Verbatim(" "),
                Dart::Verbatim("A"),
                Dart::Verbatim(" "),
                Dart::Verbatim("{}"),
            ]
        ))
    );
}

#[test]
fn final_class_is_a_class() {
    assert_eq!(
        parse("abstract final class A extends p.B<C> {}"),
        Ok((
            "",
            vec![Dart::Class(Class {
                modifiers: ClassModifierSet::from_iter([
                    ClassModifier::Final,
                    ClassModifier::Class,
                    ClassModifier::Abstract
                ]),
                name: "A",
                extends: Some(IdentifierExt {
                    name: "p.B",
                    type_args: vec![IdentifierExt::name("C")],
                    is_nullable: false,
                }),
                implements: vec![],
                body: "{}",
            })]
        ))
    );
    let nodes = parse("final class B {}").unwrap().1;
    assert!(matches!(nodes[0], Dart::Class(_)));
}

#[test]
fn functions_are_kept_as_text() {
    let input = "void main() async {\n  run({});\n}\nint add(int a, int b) => a + b;";
    assert_eq!(
        parse(input),
        Ok((
            "",
            vec![
                Dart::Func("void main() async {\n  run({});\n}"),
                Dart::Verbatim("\n"),
                Dart::Func("int add(int a, int b) => a + b;"),
            ]
        ))
    );
}

#[test]
fn variables_in_their_forms() {
    assert_eq!(
        parse("var x = 1;int? y;static const List<int> z = [1, 2] ;"),
        Ok((
            "",
            vec![
                Dart::Var(Var {
                    modifiers: VarModifierSet::new(),
                    var_type: None,
                    name: "x",
                    initializer: Some("1"),
                }),
                Dart::Var(Var {
                    modifiers: VarModifierSet::new(),
                    var_type: Some(IdentifierExt {
                        name: "int",
                        type_args: vec![],
                        is_nullable: true,
                    }),
                    name: "y",
                    initializer: None,
                }),
                Dart::Var(Var {
                    modifiers: VarModifierSet::from_iter([
                        VarModifier::Static,
                        VarModifier::Const
                    ]),
                    var_type: Some(IdentifierExt {
                        name: "List",
                        type_args: vec![IdentifierExt::name("int")],
                        is_nullable: false,
                    }),
                    name: "z",
                    initializer: Some("[1, 2] "),
                }),
            ]
        ))
    );
}

#[test]
fn characters_of_several_bytes_stay_whole() {
    let input = "// caf\u{e9}\nconst s = 'na\u{ef}ve \u{1F600}';\nclass A { // \u{4e2d}\u{6587}\n}\n\u{e9}t\u{e9}";
    let (texts, nodes) = parse_spanned(input).unwrap();
    assert_eq!(texts.concat(), input);
    assert_eq!(
        nodes,
        vec![
            Dart::Comment(Comment::SingleLine("// caf\u{e9}\n")),
            Dart::Var(Var {
                modifiers: VarModifierSet::from_iter([VarModifier::Const]),
                var_type: None,
                name: "s",
                initializer: Some("'na\u{ef}ve \u{1F600}'"),
            }),
            Dart::Verbatim("\n"),
            Dart::Class(Class {
                modifiers: ClassModifierSet::from_iter([ClassModifier::Class]),
                name: "A",
                extends: None,
                implements: vec![],
                body: "{ // \u{4e2d}\u{6587}\n}",
            }),
            Dart::Verbatim("\n"),
            Dart::Verbatim("\u{e9}t\u{e9}"),
        ]
    );
}

#[test]
fn syntax_error_behind_characters_of_several_bytes() {
    assert_eq!(
        parse("\u{e9}\u{e9} import x;"),
        Err(ParseError::Syntax { offset: 5 })
    );
}

#[test]
fn initializer_ends_at_the_first_semicolon() {
    assert_eq!(
        parse("final a = 'x;y';"),
        Ok((
            "",
            vec![
                Dart::Var(Var {
                    modifiers: VarModifierSet::from_iter([VarModifier::Final]),
                    var_type: None,
                    name: "a",
                    initializer: Some("'x"),
                }),
                Dart::Verbatim("y';"),
            ]
        ))
    );
}
