use chorus::tokens::{keyword_check, tid_to_tok, Tok};

#[test]
fn keywords_are_reclassified() {
    assert_eq!(keyword_check("fn"), Some(Tok::FnKW));
    assert_eq!(keyword_check("let"), Some(Tok::LetKW));
    assert_eq!(keyword_check("if"), Some(Tok::IfKW));
    assert_eq!(keyword_check("return"), Some(Tok::ReturnKW));
    assert_eq!(keyword_check("fnx"), None);
    assert_eq!(keyword_check("f"), None);
    assert_eq!(keyword_check(""), None);
    assert_eq!(keyword_check("print"), None);
}

#[test]
fn token_ids_follow_declaration_order() {
    assert_eq!(tid_to_tok(0), Tok::Var);
    assert_eq!(tid_to_tok(1), Tok::Int);
    assert_eq!(tid_to_tok(2), Tok::String);
    assert_eq!(tid_to_tok(13), Tok::Plus);
    assert_eq!(tid_to_tok(15), Tok::End);
    assert_eq!(tid_to_tok(20), Tok::FuncDecl);
    assert_eq!(tid_to_tok(30), Tok::BinOp);
    assert_eq!(tid_to_tok(34), Tok::VarList);
}

#[test]
fn punctuation_and_keywords_leave_no_node() {
    assert!(Tok::LeftCurly.non_semantic_token());
    assert!(Tok::RightCurly.non_semantic_token());
    assert!(Tok::LeftParen.non_semantic_token());
    assert!(Tok::RightParen.non_semantic_token());
    assert!(Tok::SemiColon.non_semantic_token());
    assert!(Tok::Comma.non_semantic_token());
    assert!(Tok::FnKW.non_semantic_token());
    assert!(Tok::ReturnKW.non_semantic_token());
    assert!(Tok::End.non_semantic_token());
    assert!(!Tok::Var.non_semantic_token());
    assert!(!Tok::Int.non_semantic_token());
    assert!(!Tok::String.non_semantic_token());
    assert!(!Tok::Eq.non_semantic_token());
    assert!(!Tok::Plus.non_semantic_token());
    assert!(!Tok::Minus.non_semantic_token());
}
