//! The expression parser: shunting-yard conversion of an infix token
//! sub-sequence into postfix (RPN) order, and the postfix stack machine that
//! evaluates the result against a variable store.

use vstd::prelude::*;

use crate::token::{Associativity, Token, TokenV};
use crate::value_type::{
    spec_add, spec_div, spec_eq, spec_ge, spec_gt, spec_le, spec_lt, spec_mul, spec_ne, spec_neg,
    spec_not, spec_sub, EvalError, EvalErrorV, ValueType, ValueV, VariableStore,
};

verus! {

/// The views of a sequence of (column, token) pairs.
pub open spec fn tok_pairs_view(s: Seq<(u32, Token)>) -> Seq<(u32, TokenV)> {
    s.map_values(|p: (u32, Token)| (p.0, p.1@))
}

/// The views of a sequence of tokens.
pub open spec fn toks_view(s: Seq<Token>) -> Seq<TokenV> {
    s.map_values(|t: Token| t@)
}

/// The views of a sequence of values.
pub open spec fn vals_view(s: Seq<ValueType>) -> Seq<ValueV> {
    s.map_values(|v: ValueType| v@)
}

/// Whether an incoming operator pops the operator atop the stack: pop while
/// the incoming operator's precedence does not exceed the top's (left
/// associative), or is strictly below it (right associative).
pub open spec fn spec_should_pop(incoming: TokenV, top: TokenV) -> bool {
    if incoming.associativity() == Associativity::Left {
        incoming.precedence() <= top.precedence()
    } else {
        incoming.precedence() < top.precedence()
    }
}

/// Pops operators bound at least as tightly as the incoming one to the
/// output, yielding the remaining stack and the extended output.
pub open spec fn spec_pop_ops(stack: Seq<TokenV>, out: Seq<TokenV>, incoming: TokenV) -> (Seq<
    TokenV,
>, Seq<TokenV>)
    decreases stack.len(),
{
    if stack.len() > 0 && stack.last().is_operator() && spec_should_pop(incoming, stack.last()) {
        spec_pop_ops(stack.drop_last(), out.push(stack.last()), incoming)
    } else {
        (stack, out)
    }
}

/// Pops operators to the output until a left parenthesis is popped and
/// discarded; an emptied stack means the parentheses do not match.
pub open spec fn spec_pop_to_lparen(stack: Seq<TokenV>, out: Seq<TokenV>) -> Option<(Seq<TokenV>, Seq<
    TokenV,
>)>
    decreases stack.len(),
{
    if stack.len() == 0 {
        None
    } else if stack.last() == TokenV::Lparen {
        Some((stack.drop_last(), out))
    } else {
        spec_pop_to_lparen(stack.drop_last(), out.push(stack.last()))
    }
}

/// At end of input the remaining stack drains to the output; a leftover
/// parenthesis at this point means the parentheses do not match.
pub open spec fn spec_drain(stack: Seq<TokenV>, out: Seq<TokenV>, stop: int) -> Result<(Seq<TokenV>, int), EvalErrorV>
    decreases stack.len(),
{
    if stack.len() == 0 {
        Ok((out, stop))
    } else if stack.last() == TokenV::Lparen || stack.last() == TokenV::Rparen {
        Err(EvalErrorV::MismatchedParenthesis)
    } else {
        spec_drain(stack.drop_last(), out.push(stack.last()), stop)
    }
}

/// One step of shunting-yard per token, carried from position `i` with the
/// output and operator stack accumulated so far.
pub open spec fn spec_parse_loop(
    toks: Seq<(u32, TokenV)>,
    i: int,
    out: Seq<TokenV>,
    stack: Seq<TokenV>,
) -> Result<(Seq<TokenV>, int), EvalErrorV>
    decreases toks.len() - i,
{
    if i < 0 || i >= toks.len() || toks[i].1 == TokenV::Then {
        spec_drain(stack, out, i)
    } else {
        let t = toks[i].1;
        if t.is_value() {
            spec_parse_loop(toks, i + 1, out.push(t), stack)
        } else if t.is_operator() {
            let popped = spec_pop_ops(stack, out, t);
            spec_parse_loop(toks, i + 1, popped.1, popped.0.push(t))
        } else if t == TokenV::Comma || t == TokenV::Lparen {
            spec_parse_loop(toks, i + 1, out, stack.push(t))
        } else if t == TokenV::Rparen {
            match spec_pop_to_lparen(stack, out) {
                Some(popped) => spec_parse_loop(toks, i + 1, popped.1, popped.0),
                None => Err(EvalErrorV::MismatchedParenthesis),
            }
        } else {
            Err(EvalErrorV::UnexpectedToken { column: toks[i].0 })
        }
    }
}

/// Shunting-yard: consumes tokens from `start` until the input is exhausted
/// or a THEN token is reached (never consumed), yielding the tokens in RPN
/// order and the position where consumption stopped.
pub open spec fn spec_parse(toks: Seq<(u32, TokenV)>, start: int) -> Result<(Seq<TokenV>, int), EvalErrorV> {
    spec_parse_loop(toks, start, Seq::empty(), Seq::empty())
}

/// The token components of a (column, token) sequence, columns dropped.
pub open spec fn columns_dropped(s: Seq<(u32, TokenV)>) -> Seq<TokenV> {
    s.map_values(|p: (u32, TokenV)| p.1)
}

proof fn lemma_parse_loop_ignores_columns(
    t1: Seq<(u32, TokenV)>,
    t2: Seq<(u32, TokenV)>,
    i: int,
    out: Seq<TokenV>,
    stack: Seq<TokenV>,
)
    requires
        columns_dropped(t1) == columns_dropped(t2),
    ensures
        spec_parse_loop(t1, i, out, stack) matches Ok(p) ==> spec_parse_loop(t2, i, out, stack)
            == Ok::<_, EvalErrorV>(p),
    decreases t1.len() - i,
{
    assert(columns_dropped(t1).len() == t1.len());
    assert(columns_dropped(t2).len() == t2.len());
    assert(t1.len() == t2.len());
    if !(i < 0 || i >= t1.len()) {
        assert(columns_dropped(t1)[i] == t1[i].1);
        assert(columns_dropped(t2)[i] == t2[i].1);
        assert(t1[i].1 == t2[i].1);
        let t = t1[i].1;
        if t == TokenV::Then {
        } else if t.is_value() {
            lemma_parse_loop_ignores_columns(t1, t2, i + 1, out.push(t), stack);
        } else if t.is_operator() {
            let popped = spec_pop_ops(stack, out, t);
            lemma_parse_loop_ignores_columns(t1, t2, i + 1, popped.1, popped.0.push(t));
        } else if t == TokenV::Comma || t == TokenV::Lparen {
            lemma_parse_loop_ignores_columns(t1, t2, i + 1, out, stack.push(t));
        } else if t == TokenV::Rparen {
            match spec_pop_to_lparen(stack, out) {
                Some(popped) => {
                    lemma_parse_loop_ignores_columns(t1, t2, i + 1, popped.1, popped.0);
                },
                None => {},
            }
        }
    }
}

/// The parser reads only the tokens, never their source columns: two token
/// sequences that agree once columns are dropped parse to the same RPN order
/// and the same stop position whenever parsing succeeds. Since the tokenizer
/// records surrounding whitespace only in the columns, the parser's output is
/// invariant under changes to whitespace width.
pub proof fn lemma_parse_ignores_columns(t1: Seq<(u32, TokenV)>, t2: Seq<(u32, TokenV)>, start: int)
    requires
        columns_dropped(t1) == columns_dropped(t2),
    ensures
        spec_parse(t1, start) matches Ok(p) ==> spec_parse(t2, start) == Ok::<_, EvalErrorV>(p),
{
    lemma_parse_loop_ignores_columns(t1, t2, start, Seq::empty(), Seq::empty());
}

fn precedence_of(t: &Token) -> (r: u8)
    ensures
        r == t@.precedence(),
{
    match t {
        Token::UnaryMinus | Token::Bang => 32,
        Token::Multiply | Token::Divide => 16,
        Token::Minus | Token::Plus => 8,
        _ => 4,
    }
}

fn should_pop(incoming: &Token, top: &Token) -> (r: bool)
    ensures
        r == (top@.is_operator() && spec_should_pop(incoming@, top@)),
{
    if !top.is_operator() {
        return false;
    }
    let ap = precedence_of(incoming);
    let tp = precedence_of(top);
    let assoc = match incoming.operator_associativity() {
        Ok(a) => a,
        Err(_) => Associativity::Left,
    };
    if assoc == Associativity::Left {
        ap <= tp
    } else {
        ap < tp
    }
}

fn token_is_lparen(t: &Token) -> (r: bool)
    ensures
        r == (t@ == TokenV::Lparen),
{
    matches!(t, Token::Lparen)
}

fn token_is_then(t: &Token) -> (r: bool)
    ensures
        r == (t@ == TokenV::Then),
{
    matches!(t, Token::Then)
}

/// Converts the infix tokens from `start` up to the end of input or a THEN
/// token into RPN order; also yields the index where consumption stopped.
#[verifier::loop_isolation(false)]
pub fn parse(tokens: &[(u32, Token)], start: usize) -> (r: Result<(Vec<Token>, usize), EvalError>)
    requires
        start <= tokens@.len(),
    ensures
        r matches Ok(p) ==> spec_parse(tok_pairs_view(tokens@), start as int) == Ok::<_, EvalErrorV>(
            (toks_view(p.0@), p.1 as int),
        ),
        r matches Err(e) ==> spec_parse(tok_pairs_view(tokens@), start as int) == Err::<
            (Seq<TokenV>, int),
            _,
        >(e@),
        r matches Ok(p) ==> start <= p.1 <= tokens@.len(),
{
    let ghost vtoks = tok_pairs_view(tokens@);
    proof {
        assert(vtoks.len() == tokens@.len());
    }
    let mut output: Vec<Token> = Vec::new();
    let mut stack: Vec<Token> = Vec::new();
    proof {
        assert(toks_view(output@) =~= Seq::<TokenV>::empty());
        assert(toks_view(stack@) =~= Seq::<TokenV>::empty());
    }
    let mut i: usize = start;
    while i < tokens.len() && !token_is_then(&tokens[i].1)
        invariant
            start <= i <= tokens@.len(),
            vtoks == tok_pairs_view(tokens@),
            vtoks.len() == tokens@.len(),
            spec_parse(vtoks, start as int) == spec_parse_loop(
                vtoks,
                i as int,
                toks_view(output@),
                toks_view(stack@),
            ),
        decreases tokens@.len() - i,
    {
        let ghost out0 = toks_view(output@);
        let ghost stk0 = toks_view(stack@);
        proof {
            assert(vtoks[i as int] == (tokens@[i as int].0, tokens@[i as int].1@));
        }
        let current = &tokens[i].1;
        if current.is_value() {
            output.push(current.clone());
            proof {
                assert(toks_view(output@) =~= out0.push(current@));
            }
        } else if current.is_operator() {
            while stack.len() > 0 && should_pop(current, &stack[stack.len() - 1])
                invariant
                    spec_pop_ops(stk0, out0, current@) == spec_pop_ops(
                        toks_view(stack@),
                        toks_view(output@),
                        current@,
                    ),
                decreases stack@.len(),
            {
                let ghost stk1 = toks_view(stack@);
                let ghost out1 = toks_view(output@);
                proof {
                    assert(stk1.last() == stack@.last()@);
                }
                match stack.pop() {
                    Some(top) => {
                        output.push(top);
                        proof {
                            assert(toks_view(stack@) =~= stk1.drop_last());
                            assert(toks_view(output@) =~= out1.push(stk1.last()));
                        }
                    },
                    None => {
                        proof {
                            assert(false);
                        }
                    },
                }
            }
            proof {
                assert(stack@.len() > 0 ==> toks_view(stack@).last() == stack@.last()@);
                assert(spec_pop_ops(toks_view(stack@), toks_view(output@), current@) == (
                    toks_view(stack@),
                    toks_view(output@),
                ));
            }
            let ghost stk2 = toks_view(stack@);
            stack.push(current.clone());
            proof {
                assert(toks_view(stack@) =~= stk2.push(current@));
            }
        } else if matches!(current, Token::Comma | Token::Lparen) {
            stack.push(current.clone());
            proof {
                assert(toks_view(stack@) =~= stk0.push(current@));
            }
        } else if matches!(current, Token::Rparen) {
            while stack.len() > 0 && !token_is_lparen(&stack[stack.len() - 1])
                invariant
                    spec_pop_to_lparen(stk0, out0) == spec_pop_to_lparen(
                        toks_view(stack@),
                        toks_view(output@),
                    ),
                decreases stack@.len(),
            {
                let ghost stk1 = toks_view(stack@);
                let ghost out1 = toks_view(output@);
                proof {
                    assert(stk1.last() == stack@.last()@);
                }
                match stack.pop() {
                    Some(top) => {
                        output.push(top);
                        proof {
                            assert(toks_view(stack@) =~= stk1.drop_last());
                            assert(toks_view(output@) =~= out1.push(stk1.last()));
                        }
                    },
                    None => {
                        proof {
                            assert(false);
                        }
                    },
                }
            }
            if stack.len() == 0 {
                return Err(EvalError::MismatchedParenthesis);
            }
            let ghost stk1 = toks_view(stack@);
            proof {
                assert(stk1.last() == stack@.last()@);
                assert(spec_pop_to_lparen(stk1, toks_view(output@)) == Some(
                    (stk1.drop_last(), toks_view(output@)),
                ));
            }
            let _ = stack.pop();
            proof {
                assert(toks_view(stack@) =~= stk1.drop_last());
            }
        } else {
            return Err(EvalError::UnexpectedToken { column: tokens[i].0 });
        }
        i += 1;
    }
    // end of input or THEN: drain the remaining operators
    let ghost stop = i as int;
    let ghost outn = toks_view(output@);
    let ghost stkn = toks_view(stack@);
    proof {
        if i < tokens@.len() {
            assert(vtoks[i as int].1 == TokenV::Then);
        }
        assert(spec_parse(vtoks, start as int) == spec_drain(stkn, outn, stop));
    }
    while stack.len() > 0
        invariant
            spec_drain(stkn, outn, stop) == spec_drain(
                toks_view(stack@),
                toks_view(output@),
                stop,
            ),
        decreases stack@.len(),
    {
        let ghost stk1 = toks_view(stack@);
        let ghost out1 = toks_view(output@);
        proof {
            assert(stk1.last() == stack@.last()@);
        }
        match stack.pop() {
            Some(top) => {
                if matches!(top, Token::Lparen | Token::Rparen) {
                    return Err(EvalError::MismatchedParenthesis);
                }
                output.push(top);
                proof {
                    assert(toks_view(stack@) =~= stk1.drop_last());
                    assert(toks_view(output@) =~= out1.push(stk1.last()));
                }
            },
            None => {
                proof {
                    assert(false);
                }
            },
        }
    }
    proof {
        assert(toks_view(stack@).len() == 0);
    }
    Ok((output, i))
}

/// One step of the postfix stack machine from position `i` of the RPN
/// sequence, with the value stack accumulated so far. Literals push; a
/// variable pushes its binding; operators pop their operands, the second pop
/// being the left-hand one. Exactly one value must remain at the end.
pub open spec fn spec_eval_rpn(
    rpn: Seq<TokenV>,
    i: int,
    vars: Map<Seq<char>, ValueV>,
    stack: Seq<ValueV>,
) -> Result<ValueV, EvalErrorV>
    decreases rpn.len() - i,
{
    if i < 0 || i >= rpn.len() {
        if stack.len() == 1 {
            Ok(stack[0])
        } else {
            Err(EvalErrorV::MalformedExpression)
        }
    } else {
        let t = rpn[i];
        match t {
            TokenV::Number(n) => spec_eval_rpn(rpn, i + 1, vars, stack.push(ValueV::Number(n))),
            TokenV::Text(s) => spec_eval_rpn(rpn, i + 1, vars, stack.push(ValueV::Text(s))),
            TokenV::Variable(name) => if vars.dom().contains(name) {
                spec_eval_rpn(rpn, i + 1, vars, stack.push(vars[name]))
            } else {
                Err(EvalErrorV::UndefinedVariable { name })
            },
            _ => if t.is_unary_operator() {
                if stack.len() == 0 {
                    Err(EvalErrorV::MissingOperand)
                } else {
                    let operand = stack.last();
                    let res = if t == TokenV::UnaryMinus {
                        spec_neg(operand)
                    } else {
                        spec_not(operand)
                    };
                    match res {
                        Ok(w) => spec_eval_rpn(rpn, i + 1, vars, stack.drop_last().push(w)),
                        Err(e) => Err(e),
                    }
                }
            } else if t.is_comparison_operator() {
                if stack.len() < 2 {
                    Err(EvalErrorV::MissingOperand)
                } else {
                    let rhs = stack.last();
                    let lhs = stack[stack.len() - 2];
                    let res = match t {
                        TokenV::Equals => spec_eq(lhs, rhs),
                        TokenV::NotEqual => spec_ne(lhs, rhs),
                        TokenV::LessThan => spec_lt(lhs, rhs),
                        TokenV::GreaterThan => spec_gt(lhs, rhs),
                        TokenV::LessThanEqual => spec_le(lhs, rhs),
                        _ => spec_ge(lhs, rhs),
                    };
                    match res {
                        Ok(b) => spec_eval_rpn(
                            rpn,
                            i + 1,
                            vars,
                            stack.take(stack.len() - 2).push(ValueV::Bool(b)),
                        ),
                        Err(e) => Err(e),
                    }
                }
            } else if t.is_binary_operator() {
                if stack.len() < 2 {
                    Err(EvalErrorV::MissingOperand)
                } else {
                    let rhs = stack.last();
                    let lhs = stack[stack.len() - 2];
                    let res = match t {
                        TokenV::Plus => spec_add(lhs, rhs),
                        TokenV::Minus => spec_sub(lhs, rhs),
                        TokenV::Multiply => spec_mul(lhs, rhs),
                        _ => spec_div(lhs, rhs),
                    };
                    match res {
                        Ok(w) => spec_eval_rpn(
                            rpn,
                            i + 1,
                            vars,
                            stack.take(stack.len() - 2).push(w),
                        ),
                        Err(e) => Err(e),
                    }
                }
            } else {
                Err(EvalErrorV::MalformedExpression)
            },
        }
    }
}

/// Parsing followed by evaluation: the result of the expression beginning at
/// `start`, and the position where the parser stopped.
pub open spec fn spec_parse_and_eval(
    toks: Seq<(u32, TokenV)>,
    start: int,
    vars: Map<Seq<char>, ValueV>,
) -> Result<(ValueV, int), EvalErrorV> {
    match spec_parse(toks, start) {
        Ok(p) => match spec_eval_rpn(p.0, 0, vars, Seq::empty()) {
            Ok(v) => Ok((v, p.1)),
            Err(e) => Err(e),
        },
        Err(e) => Err(e),
    }
}

/// Parses the expression beginning at `start` and evaluates it against the
/// variable store, yielding the value and the position where the parser
/// stopped.
#[verifier::loop_isolation(false)]
pub fn parse_and_eval(tokens: &[(u32, Token)], start: usize, variables: &VariableStore) -> (r:
    Result<(ValueType, usize), EvalError>)
    requires
        start <= tokens@.len(),
        variables.wf(),
    ensures
        r matches Ok(p) ==> spec_parse_and_eval(tok_pairs_view(tokens@), start as int, variables@)
            == Ok::<_, EvalErrorV>((p.0@, p.1 as int)),
        r matches Err(e) ==> spec_parse_and_eval(tok_pairs_view(tokens@), start as int, variables@)
            == Err::<(ValueV, int), _>(e@),
        r matches Ok(p) ==> start <= p.1 <= tokens@.len(),
{
    let (rpn, next) = match parse(tokens, start) {
        Ok(p) => p,
        Err(e) => {
            return Err(e);
        },
    };
    let ghost vrpn = toks_view(rpn@);
    let mut stack: Vec<ValueType> = Vec::new();
    proof {
        assert(vals_view(stack@) =~= Seq::<ValueV>::empty());
    }
    let mut i: usize = 0;
    while i < rpn.len()
        invariant
            i <= rpn@.len(),
            vrpn == toks_view(rpn@),
            vrpn.len() == rpn@.len(),
            variables.wf(),
            spec_eval_rpn(vrpn, 0, variables@, Seq::empty()) == spec_eval_rpn(
                vrpn,
                i as int,
                variables@,
                vals_view(stack@),
            ),
        decreases rpn@.len() - i,
    {
        let ghost stk0 = vals_view(stack@);
        proof {
            assert(vrpn[i as int] == rpn@[i as int]@);
        }
        match &rpn[i] {
            Token::Number(n) => {
                stack.push(ValueType::Number(*n));
                proof {
                    assert(vals_view(stack@) =~= stk0.push(ValueV::Number(*n)));
                }
            },
            Token::Text(s) => {
                let copy = s.clone();
                stack.push(ValueType::Text(copy));
                proof {
                    assert(vals_view(stack@) =~= stk0.push(ValueV::Text(s@)));
                }
            },
            Token::Variable(name) => {
                match variables.get(name.as_str()) {
                    Some(v) => {
                        let ghost vv = v@;
                        stack.push(v);
                        proof {
                            assert(vals_view(stack@) =~= stk0.push(vv));
                        }
                    },
                    None => {
                        return Err(EvalError::UndefinedVariable { name: name.clone() });
                    },
                }
            },
            t => {
                if t.is_unary_operator() {
                    if stack.len() == 0 {
                        return Err(EvalError::MissingOperand);
                    }
                    proof {
                        assert(stk0.last() == stack@.last()@);
                    }
                    let operand = match stack.pop() {
                        Some(v) => v,
                        None => {
                            return Err(EvalError::MissingOperand);
                        },
                    };
                    let res = if matches!(t, Token::UnaryMinus) {
                        operand.neg()
                    } else {
                        operand.not()
                    };
                    match res {
                        Ok(w) => {
                            let ghost wv = w@;
                            stack.push(w);
                            proof {
                                assert(vals_view(stack@) =~= stk0.drop_last().push(wv));
                            }
                        },
                        Err(e) => {
                            return Err(e);
                        },
                    }
                } else if t.is_comparison_operator() {
                    if stack.len() < 2 {
                        return Err(EvalError::MissingOperand);
                    }
                    proof {
                        assert(stk0.last() == stack@.last()@);
                        assert(stk0[stk0.len() - 2] == stack@[stack@.len() - 2]@);
                    }
                    let rhs = match stack.pop() {
                        Some(v) => v,
                        None => {
                            return Err(EvalError::MissingOperand);
                        },
                    };
                    let lhs = match stack.pop() {
                        Some(v) => v,
                        None => {
                            return Err(EvalError::MissingOperand);
                        },
                    };
                    let res = match t {
                        Token::Equals => lhs.eq(&rhs),
                        Token::NotEqual => lhs.ne(&rhs),
                        Token::LessThan => lhs.lt(&rhs),
                        Token::GreaterThan => lhs.gt(&rhs),
                        Token::LessThanEqual => lhs.le(&rhs),
                        _ => lhs.ge(&rhs),
                    };
                    match res {
                        Ok(b) => {
                            stack.push(ValueType::Bool(b));
                            proof {
                                assert(vals_view(stack@) =~= stk0.take(stk0.len() - 2).push(
                                    ValueV::Bool(b),
                                ));
                            }
                        },
                        Err(e) => {
                            return Err(e);
                        },
                    }
                } else if t.is_binary_operator() {
                    if stack.len() < 2 {
                        return Err(EvalError::MissingOperand);
                    }
                    proof {
                        assert(stk0.last() == stack@.last()@);
                        assert(stk0[stk0.len() - 2] == stack@[stack@.len() - 2]@);
                    }
                    let rhs = match stack.pop() {
                        Some(v) => v,
                        None => {
                            return Err(EvalError::MissingOperand);
                        },
                    };
                    let lhs = match stack.pop() {
                        Some(v) => v,
                        None => {
                            return Err(EvalError::MissingOperand);
                        },
                    };
                    let res = match t {
                        Token::Plus => lhs.add(&rhs),
                        Token::Minus => lhs.sub(&rhs),
                        Token::Multiply => lhs.mul(&rhs),
                        _ => lhs.div(&rhs),
                    };
                    match res {
                        Ok(w) => {
                            let ghost wv = w@;
                            stack.push(w);
                            proof {
                                assert(vals_view(stack@) =~= stk0.take(stk0.len() - 2).push(wv));
                            }
                        },
                        Err(e) => {
                            return Err(e);
                        },
                    }
                } else {
                    return Err(EvalError::MalformedExpression);
                }
            },
        }
        i += 1;
    }
    if stack.len() == 1 {
        match stack.pop() {
            Some(v) => Ok((v, next)),
            None => Err(EvalError::MalformedExpression),
        }
    } else {
        Err(EvalError::MalformedExpression)
    }
}

} // verus!
