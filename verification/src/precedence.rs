//! How infix operators group: by precedence, and to the left among equals.

use crate::ast::{ExpressionView, ParentView};
use crate::grammar::{
    binary_precedence, parse_binary_expression, parse_expression, parse_infix,
    parse_primary_expression, ParseState, Parsed,
};
use crate::token::TokenView;
use vstd::prelude::*;

verus! {

/// The token is a name or a literal.
pub open spec fn is_operand(token: TokenView) -> bool {
    token.kind is Identifier || token.kind is Integer || token.kind is Float
}

/// The node that an operand token makes.
pub open spec fn operand(token: TokenView, parent: ParentView) -> ExpressionView {
    if token.kind is Identifier {
        ExpressionView::Name { parent_data: parent, token }
    } else {
        ExpressionView::Literal { parent_data: parent, token }
    }
}

/// The node of an infix operator between two expressions.
pub open spec fn binary(
    left: ExpressionView,
    operator: TokenView,
    right: ExpressionView,
    parent: ParentView,
) -> ExpressionView {
    ExpressionView::Binary {
        parent_data: parent,
        left: Box::new(left),
        operator,
        right: Box::new(right),
    }
}

/// The successful parse of an expression.
pub open spec fn done(found: (ExpressionView, ParseState)) -> Parsed<ExpressionView> {
    Ok(found)
}

/// The state after `count` tokens have been consumed.
pub open spec fn advanced(st: ParseState, count: nat) -> ParseState
    decreases count,
{
    if count == 0 {
        st
    } else {
        advanced(st, (count - 1) as nat).advance()
    }
}

/// Of two infix operators in a row, `a op1 b op2 c`, the second takes `b`
/// where it binds tighter than the first; else the first takes `b`, so
/// that operators of one precedence group to the left. The expression ends
/// before the token after `c`, which is no infix operator.
pub proof fn lemma_two_operators(st: ParseState, parent: ParentView)
    requires
        st.input.len() >= 6,
        is_operand(st.input[0]),
        binary_precedence(st.input[1].kind) > 0,
        is_operand(st.input[2]),
        binary_precedence(st.input[3].kind) > 0,
        is_operand(st.input[4]),
        binary_precedence(st.input[5].kind) == 0,
    ensures
        parse_expression(st, parent) == done(
            (
                if binary_precedence(st.input[3].kind) > binary_precedence(st.input[1].kind) {
                    binary(
                        operand(st.input[0], parent),
                        st.input[1],
                        binary(
                            operand(st.input[2], parent),
                            st.input[3],
                            operand(st.input[4], parent),
                            parent,
                        ),
                        parent,
                    )
                } else {
                    binary(
                        binary(
                            operand(st.input[0], parent),
                            st.input[1],
                            operand(st.input[2], parent),
                            parent,
                        ),
                        st.input[3],
                        operand(st.input[4], parent),
                        parent,
                    )
                },
                advanced(st, 5),
            ),
        ),
{
    reveal(parse_expression);
    reveal_with_fuel(parse_binary_expression, 4);
    reveal_with_fuel(parse_primary_expression, 2);
    reveal_with_fuel(parse_infix, 8);
    reveal_with_fuel(advanced, 6);
    let s1 = st.advance();
    let s2 = s1.advance();
    let s3 = s2.advance();
    let s4 = s3.advance();
    let s5 = s4.advance();
    assert(s1.peek() == st.input[1]);
    assert(s2.peek() == st.input[2]);
    assert(s3.peek() == st.input[3]);
    assert(s4.peek() == st.input[4]);
    assert(s5.peek() == st.input[5]);
    assert(s5 == advanced(st, 5));
    let a = operand(st.input[0], parent);
    let b = operand(st.input[2], parent);
    let c = operand(st.input[4], parent);
    let earlier = binary_precedence(st.input[1].kind);
    let later = binary_precedence(st.input[3].kind);
    assert(parse_primary_expression(st, parent) == done((a, s1)));
    assert(parse_primary_expression(s2, parent) == done((b, s3)));
    assert(parse_primary_expression(s4, parent) == done((c, s5)));
    if later > earlier {
        assert(parse_infix(s5, c, later, parent) == done((c, s5)));
        assert(parse_binary_expression(s4, later, parent) == done(
            (c, s5),
        ));
        let bc = binary(b, st.input[3], c, parent);
        assert(parse_infix(s5, bc, earlier, parent) == done((bc, s5)));
        assert(parse_infix(s3, b, earlier, parent) == done((bc, s5)));
        assert(parse_binary_expression(s2, earlier, parent) == done(
            (bc, s5),
        ));
        let abc = binary(a, st.input[1], bc, parent);
        assert(parse_infix(s5, abc, 0, parent) == done(
            (abc, s5),
        ));
        assert(parse_infix(s1, a, 0, parent) == done((abc, s5)));
    } else {
        assert(parse_infix(s3, b, earlier, parent) == done((b, s3)));
        assert(parse_binary_expression(s2, earlier, parent) == done(
            (b, s3),
        ));
        let ab = binary(a, st.input[1], b, parent);
        assert(parse_infix(s5, c, later, parent) == done((c, s5)));
        assert(parse_binary_expression(s4, later, parent) == done(
            (c, s5),
        ));
        let abc = binary(ab, st.input[3], c, parent);
        assert(parse_infix(s5, abc, 0, parent) == done(
            (abc, s5),
        ));
        assert(parse_infix(s3, ab, 0, parent) == done(
            (abc, s5),
        ));
        assert(parse_infix(s1, a, 0, parent) == done((abc, s5)));
    }
}

} // verus!
