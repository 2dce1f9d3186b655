use gazm::ast::{Ast, AstKind, AstNode};

fn node(kind: AstKind, children: Vec<usize>) -> AstNode {
    AstNode { kind, children }
}

#[test]
fn ast_text_of_statements() {
    let ast = Ast {
        nodes: vec![
            node(AstKind::TokenizedFile, vec![1, 3, 5, 10, 12]),
            node(AstKind::Org, vec![2]),
            node(AstKind::Num(4096), vec![]),
            node(AstKind::Assignment("SCREEN".to_string()), vec![4]),
            node(AstKind::Num(-2), vec![]),
            node(AstKind::Fcb, vec![6, 7]),
            node(AstKind::Num(1), vec![]),
            node(AstKind::BracketedExpr, vec![8, 9, 11]),
            node(AstKind::Pc, vec![]),
            node(AstKind::Add, vec![]),
            node(AstKind::Fcc("say \"hi\"\n".to_string()), vec![]),
            node(AstKind::Num(3), vec![]),
            node(AstKind::MacroDef("m".to_string(), vec!["a".to_string(), "b".to_string()]), vec![13]),
            node(AstKind::Comment("body".to_string()), vec![]),
        ],
    };
    assert!(ast.is_wf());
    assert_eq!(
        ast.ast_text(0),
        "TokFile:\norg 4096\nSCREEN equ -2\nfcb 1,(*+3)\n\"say \\\"hi\\\"\\n\"\nmacro m ([\"a\", \"b\"]) [; body]"
    );
    assert_eq!(ast.ast_text(7), "(*+3)");
}

#[test]
fn ast_text_of_other_kinds() {
    let ast = Ast {
        nodes: vec![
            node(AstKind::StructDef("Proc".to_string()), vec![1, 3]),
            node(AstKind::StructEntry("x".to_string()), vec![2]),
            node(AstKind::Label("byte".to_string()), vec![]),
            node(AstKind::StructEntry("y".to_string()), vec![4]),
            node(AstKind::Label("word".to_string()), vec![]),
        ],
    };
    assert_eq!(ast.ast_text(0), "struct Proc {\n x : byte,\ny : word\n}");
    let other = Ast { nodes: vec![node(AstKind::Other("Exec".to_string()), vec![])] };
    assert_eq!(other.ast_text(0), "Exec not implemented");
    let bad = Ast { nodes: vec![node(AstKind::Org, vec![])] };
    assert!(!bad.is_wf());
    let backwards = Ast { nodes: vec![node(AstKind::Expr, vec![]), node(AstKind::Expr, vec![0])] };
    assert!(!backwards.is_wf());
}
