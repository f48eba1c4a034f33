use formality_prove::{
    ArgumentExpression, BasicBlock, BbId, Body, LocalDecl, LocalId, Parameter, PlaceExpression,
    Statement, Terminator, Ty, ValueExpression,
};

fn local(name: &str) -> PlaceExpression {
    PlaceExpression::Local(LocalId::new(name))
}

#[test]
fn a_body_that_copies_its_argument() {
    let body = Body {
        args: vec![LocalId::new("v1")],
        ret: LocalId::new("v0"),
        locals: vec![
            LocalDecl { id: LocalId::new("v0"), ty: Ty::Scalar(32) },
            LocalDecl { id: LocalId::new("v1"), ty: Ty::Scalar(32) },
        ],
        blocks: vec![BasicBlock {
            id: BbId::new("bb0"),
            statements: vec![Statement::Assign(local("v0"), ValueExpression::Load(local("v1")))],
            terminator: Terminator::Return,
        }],
    };
    assert_eq!(body.args.len(), 1);
    assert_eq!(body.ret.name, "v0");
    assert_eq!(body.locals[1].ty, Ty::Scalar(32));
    assert_eq!(body.blocks[0].id, BbId::new("bb0"));
    assert_eq!(
        body.blocks[0].statements[0],
        Statement::Assign(local("v0"), ValueExpression::Load(local("v1")))
    );
    assert_ne!(body.blocks[0].statements[0], Statement::PlaceMention(local("v0")));
}

#[test]
fn a_call_names_its_callee_and_where_it_goes_on() {
    let call = Terminator::Call {
        callee: ValueExpression::Load(local("foo")),
        generic_arguments: vec![Parameter::Ty(Ty::Scalar(32))],
        arguments: vec![
            ArgumentExpression::ByValue(ValueExpression::Load(local("v1"))),
            ArgumentExpression::InPlace(local("v2")),
        ],
        ret: local("v0"),
        next_block: Some(BbId::new("bb1")),
    };
    match &call {
        Terminator::Call { arguments, next_block, .. } => {
            assert_eq!(arguments.len(), 2);
            assert_eq!(next_block, &Some(BbId::new("bb1")));
        }
        _ => unreachable!(),
    }
    assert_ne!(call, Terminator::Goto(BbId::new("bb1")));
    assert_ne!(Terminator::Return, Terminator::Goto(BbId::new("bb0")));
}
