//! A recursive-descent front end for the statement subset the back end
//! lowers: declarations (`name := expr`, `name :: expr`), assignments,
//! `break` / `continue` / `return`, and expression statements over
//! literals, identifiers, parenthesised groups and binary operators with
//! precedence climbing.

use vstd::prelude::*;

use crate::ast::{Expression, Operator, Statement};
use crate::double::double_parse;
use crate::token::{Token, TokenType};

verus! {

broadcast use vstd::string::group_string_axioms;

/// A failure of the front end.
#[derive(Clone, Copy, Debug, PartialEq, Eq, Structural)]
pub enum ParseError {
    /// The token stream ended where more input was needed.
    UnexpectedEnd,
    /// A token that no rule accepts at this position.
    UnexpectedToken,
    /// A numeric literal whose text does not denote a number, or an
    /// empty character literal.
    InvalidNumber,
    /// A statement not followed by a line break.
    ExpectedNewline,
}

/// Whether `c` is a decimal digit.
pub open spec fn is_digit(c: char) -> bool {
    '0' <= c && c <= '9'
}

/// Whether every character of `s` is a decimal digit.
pub open spec fn all_digits(s: Seq<char>) -> bool {
    forall|i: int| 0 <= i < s.len() ==> is_digit(#[trigger] s[i])
}

/// The number a sequence of decimal digits denotes.
pub open spec fn digits_val(s: Seq<char>) -> int
    decreases s.len(),
{
    if s.len() == 0 {
        0
    } else {
        digits_val(s.drop_last()) * 10 + (s.last() as int - 48)
    }
}

/// The value of a digit string only grows as digits are appended.
proof fn lemma_digits_val_prefix(s: Seq<char>, i: int)
    requires
        all_digits(s),
        0 <= i <= s.len(),
    ensures
        digits_val(s.take(i)) <= digits_val(s),
        digits_val(s) >= 0,
    decreases s.len(),
{
    if s.len() > 0 {
        assert(is_digit(s.last()));
        assert(all_digits(s.drop_last())) by {
            assert(forall|j: int|
                0 <= j < s.len() - 1 ==> s.drop_last()[j] == #[trigger] s[j]);
        }
        if i < s.len() {
            assert(s.take(i) =~= s.drop_last().take(i));
            lemma_digits_val_prefix(s.drop_last(), i);
        } else {
            assert(s.take(i) =~= s);
            lemma_digits_val_prefix(s.drop_last(), s.len() - 1);
        }
    }
}

/// Reads an unsigned 128-bit integer from a string of decimal digits;
/// `None` exactly when the string is empty, holds a non-digit, or
/// denotes a number too large for 128 bits.
pub fn parse_u128(s: &str) -> (r: Option<u128>)
    ensures
        match r {
            Some(v) => s@.len() > 0 && all_digits(s@) && v as int == digits_val(s@),
            None => !(s@.len() > 0 && all_digits(s@) && digits_val(s@) <= u128::MAX as int),
        },
{
    let n = s.unicode_len();
    if n == 0 {
        return None;
    }
    let mut acc: u128 = 0;
    let mut i: usize = 0;
    #[verifier::loop_isolation(false)]
    while i < n
        invariant
            0 <= i <= n,
            forall|j: int| 0 <= j < i ==> is_digit(#[trigger] s@[j]),
            acc as int == digits_val(s@.take(i as int)),
        decreases n - i,
    {
        let c = s.get_char(i);
        if !('0' <= c && c <= '9') {
            return None;
        }
        let d: u128 = (c as u32 as u128) - 48;
        let stepped = match acc.checked_mul(10) {
            Some(t) => t.checked_add(d),
            None => None,
        };
        proof {
            assert(s@.take(i + 1).drop_last() =~= s@.take(i as int));
            assert(s@.take(i + 1).last() == s@[i as int]);
        }
        match stepped {
            Some(t) => {
                acc = t;
            },
            None => {
                proof {
                    if all_digits(s@) {
                        lemma_digits_val_prefix(s@, i + 1);
                    }
                }
                return None;
            },
        }
        i += 1;
    }
    proof {
        assert(s@.take(n as int) =~= s@);
    }
    Some(acc)
}

impl Operator {
    /// The operator a lexeme denotes, with its binding strength (a
    /// larger number binds tighter), or `None` for any other text.
    pub open spec fn from_str_spec(s: Seq<char>) -> Option<(Operator, u8)> {
        if s == "+"@ {
            Some((Operator::Add, 2))
        } else if s == "-"@ {
            Some((Operator::Sub, 2))
        } else if s == "++"@ {
            Some((Operator::Concat, 2))
        } else if s == "*"@ {
            Some((Operator::Mul, 3))
        } else if s == "/"@ {
            Some((Operator::Div, 3))
        } else if s == "%"@ {
            Some((Operator::Mod, 3))
        } else if s == "<"@ {
            Some((Operator::Lt, 1))
        } else if s == "<="@ {
            Some((Operator::LtEq, 1))
        } else if s == ">"@ {
            Some((Operator::Gt, 1))
        } else if s == ">="@ {
            Some((Operator::GtEq, 1))
        } else if s == "=="@ {
            Some((Operator::Eq, 0))
        } else if s == "!="@ {
            Some((Operator::NEq, 0))
        } else {
            None
        }
    }

    /// The operator a lexeme denotes, with its binding strength.
    pub fn from_str(s: &str) -> (r: Option<(Operator, u8)>)
        ensures
            r == Operator::from_str_spec(s@),
    {
        let owned: String = s.to_owned();
        if owned == "+".to_owned() {
            Some((Operator::Add, 2))
        } else if owned == "-".to_owned() {
            Some((Operator::Sub, 2))
        } else if owned == "++".to_owned() {
            Some((Operator::Concat, 2))
        } else if owned == "*".to_owned() {
            Some((Operator::Mul, 3))
        } else if owned == "/".to_owned() {
            Some((Operator::Div, 3))
        } else if owned == "%".to_owned() {
            Some((Operator::Mod, 3))
        } else if owned == "<".to_owned() {
            Some((Operator::Lt, 1))
        } else if owned == "<=".to_owned() {
            Some((Operator::LtEq, 1))
        } else if owned == ">".to_owned() {
            Some((Operator::Gt, 1))
        } else if owned == ">=".to_owned() {
            Some((Operator::GtEq, 1))
        } else if owned == "==".to_owned() {
            Some((Operator::Eq, 0))
        } else if owned == "!=".to_owned() {
            Some((Operator::NEq, 0))
        } else {
            None
        }
    }
}

/// Constant folding over fully literal nodes, exactly as the machine
/// would evaluate them: an arithmetic node whose two folded children are
/// both integer or both double literals becomes the literal result; any
/// other node — mixed or non-literal operands, an integer overflow, a
/// division by zero — is returned unchanged.
pub open spec fn fold_spec(e: Expression) -> Expression
    decreases e,
{
    match e {
        Expression::Binary(l, op, r) => {
            match (fold_spec(*l), op, fold_spec(*r)) {
                (Expression::Int(a), Operator::Add, Expression::Int(b)) => if a + b
                    <= u128::MAX as int {
                    Expression::Int((a + b) as u128)
                } else {
                    e
                },
                (Expression::Int(a), Operator::Sub, Expression::Int(b)) => if a >= b {
                    Expression::Int((a - b) as u128)
                } else {
                    e
                },
                (Expression::Int(a), Operator::Mul, Expression::Int(b)) => if a * b
                    <= u128::MAX as int {
                    Expression::Int((a * b) as u128)
                } else {
                    e
                },
                (Expression::Int(a), Operator::Div, Expression::Int(b)) => if b != 0 {
                    Expression::Int(a / b)
                } else {
                    e
                },
                (Expression::Double(a), Operator::Add, Expression::Double(b)) => Expression::Double(
                    crate::double::double_add_bits(a, b),
                ),
                (Expression::Double(a), Operator::Sub, Expression::Double(b)) => Expression::Double(
                    crate::double::double_sub_bits(a, b),
                ),
                (Expression::Double(a), Operator::Mul, Expression::Double(b)) => Expression::Double(
                    crate::double::double_mul_bits(a, b),
                ),
                (Expression::Double(a), Operator::Div, Expression::Double(b)) => Expression::Double(
                    crate::double::double_div_bits(a, b),
                ),
                _ => e,
            }
        },
        _ => e,
    }
}

/// A deep copy of an expression tree.
fn clone_expression(e: &Expression) -> (r: Expression)
    ensures
        r == *e,
    decreases *e,
{
    match e {
        Expression::Int(a) => Expression::Int(*a),
        Expression::Double(b) => Expression::Double(*b),
        Expression::Char(c) => Expression::Char(*c),
        Expression::Str(s) => Expression::Str(s.clone()),
        Expression::Bool(b) => Expression::Bool(*b),
        Expression::Identifier(name) => Expression::Identifier(name.clone()),
        Expression::Binary(l, op, r) => Expression::Binary(
            Box::new(clone_expression(l)),
            *op,
            Box::new(clone_expression(r)),
        ),
    }
}

/// A recursive-descent reader over an owned token stream.
pub struct Parser {
    index: usize,
    tokens: Vec<Token>,
}

impl Parser {
    /// The position of the next unread token.
    pub closed spec fn index_spec(self) -> int {
        self.index as int
    }

    /// The token stream.
    pub closed spec fn tokens_spec(self) -> Seq<Token> {
        self.tokens@
    }

    /// The reader never runs past the end of the stream.
    pub open spec fn wf(self) -> bool {
        self.index_spec() <= self.tokens_spec().len()
    }

    /// How many tokens are left to read.
    pub open spec fn remaining_spec(self) -> int {
        self.tokens_spec().len() - self.index_spec()
    }

    /// The token under the cursor, clamped to the last one at the end of
    /// the stream.
    pub open spec fn current_spec(self) -> Token {
        if self.index_spec() < self.tokens_spec().len() {
            self.tokens_spec()[self.index_spec()]
        } else {
            self.tokens_spec()[self.tokens_spec().len() - 1]
        }
    }

    /// A parser at the start of `tokens`.
    pub fn new(tokens: Vec<Token>) -> (p: Parser)
        ensures
            p.wf(),
            p.index_spec() == 0,
            p.tokens_spec() == tokens@,
    {
        Parser { tokens, index: 0 }
    }

    /// How many tokens are left to read.
    pub fn remaining(&self) -> (n: usize)
        requires
            self.wf(),
        ensures
            n == self.remaining_spec(),
    {
        self.tokens.len() - self.index
    }

    /// The clamped cursor position.
    fn cur_index(&self) -> (i: usize)
        requires
            self.wf(),
            self.tokens_spec().len() > 0,
        ensures
            i < self.tokens_spec().len(),
            self.tokens_spec()[i as int] == self.current_spec(),
    {
        if self.index < self.tokens.len() {
            self.index
        } else {
            self.tokens.len() - 1
        }
    }

    /// Advances the cursor by one token.
    fn next(&mut self)
        requires
            old(self).wf(),
            old(self).remaining_spec() > 0,
        ensures
            final(self).wf(),
            final(self).tokens_spec() == old(self).tokens_spec(),
            final(self).index_spec() == old(self).index_spec() + 1,
    {
        let n = self.tokens.len();
        proof {
            assert(self.index < n);
        }
        self.index += 1;
    }

    /// The category of the token under the cursor.
    fn current_type(&self) -> (t: TokenType)
        requires
            self.wf(),
            self.tokens_spec().len() > 0,
        ensures
            t == self.current_spec().token_type,
    {
        let i = self.cur_index();
        self.tokens[i].token_type
    }

    /// Whether the token under the cursor carries exactly the text `s`.
    fn lexeme_is(&self, s: &str) -> (r: bool)
        requires
            self.wf(),
            self.tokens_spec().len() > 0,
        ensures
            r == (self.current_spec().lexeme@ == s@),
    {
        let i = self.cur_index();
        let owned: String = s.to_owned();
        self.tokens[i].lexeme == owned
    }

    /// Reads the token under the cursor and advances past it, handing
    /// back its text.
    fn eat(&mut self) -> (s: String)
        requires
            old(self).wf(),
            old(self).remaining_spec() > 0,
        ensures
            final(self).wf(),
            final(self).tokens_spec() == old(self).tokens_spec(),
            final(self).index_spec() == old(self).index_spec() + 1,
            s@ == old(self).current_spec().lexeme@,
    {
        let lexeme = self.tokens[self.index].lexeme.clone();
        self.next();
        lexeme
    }

    /// Advances past the token under the cursor when it carries exactly
    /// the text `lexeme`; otherwise reports it as unexpected.
    fn eat_lexeme(&mut self, lexeme: &str) -> (r: Result<(), ParseError>)
        requires
            old(self).wf(),
            old(self).remaining_spec() > 0,
        ensures
            final(self).wf(),
            final(self).tokens_spec() == old(self).tokens_spec(),
            match r {
                Ok(()) => old(self).current_spec().lexeme@ == lexeme@ && final(self).index_spec()
                    == old(self).index_spec() + 1,
                Err(er) => er == ParseError::UnexpectedToken && old(self).current_spec().lexeme@
                    != lexeme@ && final(self).index_spec() == old(self).index_spec(),
            },
    {
        if self.lexeme_is(lexeme) {
            self.next();
            Ok(())
        } else {
            Err(ParseError::UnexpectedToken)
        }
    }

    /// Advances past the token under the cursor when it belongs to the
    /// category `token_type`; otherwise reports it as unexpected.
    pub fn eat_type(&mut self, token_type: TokenType) -> (r: Result<String, ParseError>)
        requires
            old(self).wf(),
            old(self).remaining_spec() > 0,
        ensures
            final(self).wf(),
            final(self).tokens_spec() == old(self).tokens_spec(),
            match r {
                Ok(s) => old(self).current_spec().token_type == token_type
                    && final(self).index_spec() == old(self).index_spec() + 1
                    && s@ == old(self).current_spec().lexeme@,
                Err(er) => er == ParseError::UnexpectedToken && old(self).current_spec().token_type
                    != token_type && final(self).index_spec() == old(self).index_spec(),
            },
    {
        if self.current_type() == token_type {
            Ok(self.eat())
        } else {
            Err(ParseError::UnexpectedToken)
        }
    }

    /// Checks that the token under the cursor carries exactly the text
    /// `lexeme`, without advancing.
    pub fn expect_lexeme(&self, lexeme: &str) -> (r: Result<(), ParseError>)
        requires
            self.wf(),
            self.tokens_spec().len() > 0,
        ensures
            match r {
                Ok(()) => self.current_spec().lexeme@ == lexeme@,
                Err(er) => er == ParseError::UnexpectedToken && self.current_spec().lexeme@
                    != lexeme@,
            },
    {
        if self.lexeme_is(lexeme) {
            Ok(())
        } else {
            Err(ParseError::UnexpectedToken)
        }
    }

    /// Checks that the token under the cursor belongs to the category
    /// `token_type`, without advancing.
    pub fn expect_type(&self, token_type: TokenType) -> (r: Result<(), ParseError>)
        requires
            self.wf(),
            self.tokens_spec().len() > 0,
        ensures
            match r {
                Ok(()) => self.current_spec().token_type == token_type,
                Err(er) => er == ParseError::UnexpectedToken && self.current_spec().token_type
                    != token_type,
            },
    {
        if self.current_type() == token_type {
            Ok(())
        } else {
            Err(ParseError::UnexpectedToken)
        }
    }

    /// Consumes the line break that ends a statement; the end of the
    /// stream counts as one.
    fn newline(&mut self) -> (r: Result<(), ParseError>)
        requires
            old(self).wf(),
        ensures
            final(self).wf(),
            final(self).tokens_spec() == old(self).tokens_spec(),
            final(self).index_spec() >= old(self).index_spec(),
    {
        if self.remaining() > 0 {
            if self.lexeme_is("\n") {
                self.next();
                Ok(())
            } else {
                Err(ParseError::ExpectedNewline)
            }
        } else {
            Ok(())
        }
    }

    /// Reads every statement of the stream, skipping blank lines.
    pub fn parse(&mut self) -> (r: Result<Vec<Statement>, ParseError>)
        requires
            old(self).wf(),
        ensures
            final(self).wf(),
            final(self).tokens_spec() == old(self).tokens_spec(),
            r is Ok ==> final(self).remaining_spec() == 0,
    {
        let mut ast: Vec<Statement> = Vec::new();
        #[verifier::loop_isolation(false)]
        while self.remaining() > 0
            invariant
                self.wf(),
                self.tokens_spec() == old(self).tokens_spec(),
            decreases self.remaining_spec(),
        {
            if self.current_type() == TokenType::EOL {
                self.next();
            } else {
                match self.parse_statement() {
                    Ok(statement) => {
                        ast.push(statement);
                    },
                    Err(er) => {
                        return Err(er);
                    },
                }
            }
        }
        Ok(ast)
    }

    /// Reads one statement: a `break`, `continue` or `return`, a
    /// declaration (`name := expr` or `name :: expr`), an assignment
    /// (`name = expr`), or a bare expression; then the line break that
    /// ends it.
    fn parse_statement(&mut self) -> (r: Result<Statement, ParseError>)
        requires
            old(self).wf(),
            old(self).remaining_spec() > 0,
        ensures
            final(self).wf(),
            final(self).tokens_spec() == old(self).tokens_spec(),
            final(self).index_spec() >= old(self).index_spec(),
            r is Ok ==> final(self).index_spec() > old(self).index_spec(),
            match r {
                Ok(st) => {
                    let lead = old(self).current_spec();
                    &&& (lead.token_type == TokenType::Keyword && lead.lexeme@ == "break"@
                        ==> st == Statement::Break)
                    &&& (lead.token_type == TokenType::Keyword && lead.lexeme@ == "continue"@
                        ==> st == Statement::Continue)
                },
                Err(_) => true,
            },
        decreases old(self).remaining_spec(), 3int,
    {
        proof {
            reveal_strlit("break");
            reveal_strlit("continue");
            reveal_strlit("return");
            assert("break"@.len() == 5);
            assert("return"@.len() == 6);
            assert("continue"@.len() == 8);
        }
        let statement: Statement = if self.current_type() == TokenType::Keyword {
            if self.lexeme_is("break") {
                self.next();
                Statement::Break
            } else if self.lexeme_is("continue") {
                self.next();
                Statement::Continue
            } else if self.lexeme_is("return") {
                self.next();
                if self.remaining() == 0 || self.lexeme_is("\n") {
                    Statement::Return(None)
                } else {
                    match self.parse_expression() {
                        Ok(e) => Statement::Return(Some(e)),
                        Err(er) => {
                            return Err(er);
                        },
                    }
                }
            } else {
                return Err(ParseError::UnexpectedToken);
            }
        } else {
            let expression = match self.parse_expression() {
                Ok(e) => e,
                Err(er) => {
                    return Err(er);
                },
            };
            match expression {
                Expression::Identifier(name) => {
                    if self.remaining() > 0 && self.current_type() == TokenType::Symbol {
                        if self.lexeme_is(":") {
                            match self.parse_declaration(Expression::Identifier(name)) {
                                Ok(statement) => statement,
                                Err(er) => {
                                    return Err(er);
                                },
                            }
                        } else if self.lexeme_is("=") {
                            self.next();
                            if self.remaining() == 0 {
                                return Err(ParseError::UnexpectedEnd);
                            }
                            match self.parse_expression() {
                                Ok(right) => Statement::Assignment(
                                    Expression::Identifier(name),
                                    right,
                                ),
                                Err(er) => {
                                    return Err(er);
                                },
                            }
                        } else {
                            return Err(ParseError::UnexpectedToken);
                        }
                    } else {
                        Statement::Expression(Expression::Identifier(name))
                    }
                },
                other => Statement::Expression(other),
            }
        };
        match self.newline() {
            Ok(()) => Ok(statement),
            Err(er) => Err(er),
        }
    }

    /// Reads the rest of a declaration after its name: `: =` binds the
    /// name as a variable with an initializer, `: :` binds it as a
    /// constant. A declaration not opened by `:`, or with anything else
    /// after the `:`, is rejected.
    fn parse_declaration(&mut self, left: Expression) -> (r: Result<Statement, ParseError>)
        requires
            old(self).wf(),
            old(self).remaining_spec() > 0,
        ensures
            final(self).wf(),
            final(self).tokens_spec() == old(self).tokens_spec(),
            final(self).index_spec() >= old(self).index_spec(),
        decreases old(self).remaining_spec(), 3int,
    {
        let name = match left {
            Expression::Identifier(name) => name,
            _ => {
                return Err(ParseError::UnexpectedToken);
            },
        };
        match self.eat_lexeme(":") {
            Ok(()) => {},
            Err(er) => {
                return Err(er);
            },
        }
        if self.remaining() == 0 {
            return Err(ParseError::UnexpectedEnd);
        }
        if self.lexeme_is(":") {
            self.next();
            if self.remaining() == 0 {
                return Err(ParseError::UnexpectedEnd);
            }
            match self.parse_expression() {
                Ok(right) => Ok(Statement::Constant(name, right)),
                Err(er) => Err(er),
            }
        } else if self.lexeme_is("=") {
            self.next();
            if self.remaining() == 0 {
                return Err(ParseError::UnexpectedEnd);
            }
            match self.parse_expression() {
                Ok(right) => Ok(Statement::Variable(name, Some(right))),
                Err(er) => Err(er),
            }
        } else {
            Err(ParseError::UnexpectedToken)
        }
    }

    /// Reads one expression: an atom, continued by precedence climbing
    /// when an operator follows.
    fn parse_expression(&mut self) -> (r: Result<Expression, ParseError>)
        requires
            old(self).wf(),
            old(self).remaining_spec() > 0,
        ensures
            final(self).wf(),
            final(self).tokens_spec() == old(self).tokens_spec(),
            final(self).index_spec() >= old(self).index_spec(),
            r is Ok ==> final(self).index_spec() > old(self).index_spec(),
        decreases old(self).remaining_spec(), 2int,
    {
        let atom = match self.parse_atom() {
            Ok(e) => e,
            Err(er) => {
                return Err(er);
            },
        };
        if self.remaining() > 0 && self.current_type() == TokenType::Operator {
            self.parse_binary(atom)
        } else {
            Ok(atom)
        }
    }

    /// Reads one atom: a literal, an identifier, or a parenthesised
    /// expression.
    fn parse_atom(&mut self) -> (r: Result<Expression, ParseError>)
        requires
            old(self).wf(),
            old(self).remaining_spec() > 0,
        ensures
            final(self).wf(),
            final(self).tokens_spec() == old(self).tokens_spec(),
            final(self).index_spec() >= old(self).index_spec(),
            r is Ok ==> final(self).index_spec() > old(self).index_spec(),
            match r {
                Ok(e) => {
                    let lead = old(self).current_spec();
                    &&& (lead.token_type == TokenType::Int ==> (e matches Expression::Int(v)
                        && v as int == digits_val(lead.lexeme@)))
                    &&& (lead.token_type == TokenType::Double ==> (e matches Expression::Double(
                        bits,
                    ) && Some(bits) == crate::double::double_of_literal(lead.lexeme@)))
                    &&& (lead.token_type == TokenType::Str ==> (e matches Expression::Str(s)
                        && s@ == lead.lexeme@))
                    &&& (lead.token_type == TokenType::Identifier ==> (e
                        matches Expression::Identifier(nm) && nm@ == lead.lexeme@))
                    &&& (lead.token_type == TokenType::Bool ==> e == Expression::Bool(
                        lead.lexeme@ == "true"@,
                    ))
                },
                Err(_) => true,
            },
        decreases old(self).remaining_spec(), 0int,
    {
        match self.current_type() {
            TokenType::Int => {
                let lexeme = self.eat();
                match parse_u128(lexeme.as_str()) {
                    Some(v) => Ok(Expression::Int(v)),
                    None => Err(ParseError::InvalidNumber),
                }
            },
            TokenType::Double => {
                let lexeme = self.eat();
                match double_parse(lexeme.as_str()) {
                    Some(bits) => Ok(Expression::Double(bits)),
                    None => Err(ParseError::InvalidNumber),
                }
            },
            TokenType::Char => {
                let lexeme = self.eat();
                let n = lexeme.as_str().unicode_len();
                if n == 0 {
                    Err(ParseError::InvalidNumber)
                } else {
                    Ok(Expression::Char(lexeme.as_str().get_char(n - 1)))
                }
            },
            TokenType::Str => {
                let lexeme = self.eat();
                Ok(Expression::Str(lexeme))
            },
            TokenType::Identifier => {
                let lexeme = self.eat();
                Ok(Expression::Identifier(lexeme))
            },
            TokenType::Bool => {
                let truthful = self.lexeme_is("true");
                self.next();
                Ok(Expression::Bool(truthful))
            },
            TokenType::Symbol => {
                if self.lexeme_is("(") {
                    self.next();
                    if self.remaining() == 0 {
                        return Err(ParseError::UnexpectedEnd);
                    }
                    let content = match self.parse_expression() {
                        Ok(e) => e,
                        Err(er) => {
                            return Err(er);
                        },
                    };
                    if self.remaining() == 0 {
                        return Err(ParseError::UnexpectedEnd);
                    }
                    match self.eat_lexeme(")") {
                        Ok(()) => Ok(content),
                        Err(er) => Err(er),
                    }
                } else {
                    Err(ParseError::UnexpectedToken)
                }
            },
            _ => Err(ParseError::UnexpectedToken),
        }
    }

    /// Precedence climbing over a run of binary operators: operators are
    /// shifted onto a stack and reduced whenever a strictly
    /// weaker-binding one arrives, so tighter-binding operators group
    /// first, and a run of equal-strength operators groups to the right.
    #[verifier::loop_isolation(false)]
    fn parse_binary(&mut self, left: Expression) -> (r: Result<Expression, ParseError>)
        requires
            old(self).wf(),
            old(self).remaining_spec() > 0,
        ensures
            final(self).wf(),
            final(self).tokens_spec() == old(self).tokens_spec(),
            final(self).index_spec() >= old(self).index_spec(),
            r is Ok ==> final(self).index_spec() > old(self).index_spec(),
        decreases old(self).remaining_spec(), 1int,
    {
        let mut expression_stack: Vec<Expression> = Vec::new();
        expression_stack.push(left);
        let first_lexeme = self.eat();
        let first = match Operator::from_str(first_lexeme.as_str()) {
            Some(op) => op,
            None => {
                return Err(ParseError::UnexpectedToken);
            },
        };
        let mut operator_stack: Vec<(Operator, u8)> = Vec::new();
        operator_stack.push(first);
        if self.remaining() == 0 {
            return Err(ParseError::UnexpectedEnd);
        }
        match self.parse_atom() {
            Ok(e) => {
                expression_stack.push(e);
            },
            Err(er) => {
                return Err(er);
            },
        }
        while operator_stack.len() > 0
            invariant
                self.wf(),
                self.tokens_spec() == old(self).tokens_spec(),
                self.index_spec() > old(self).index_spec(),
                expression_stack@.len() == operator_stack@.len() + 1,
            decreases self.remaining_spec(), operator_stack@.len(),
        {
            let ghost rem_it = self.remaining_spec();
            let ghost ops_it = operator_stack@.len();
            while self.remaining() > 0 && self.current_type() == TokenType::Operator
                invariant
                    self.wf(),
                    self.tokens_spec() == old(self).tokens_spec(),
                    self.index_spec() > old(self).index_spec(),
                    operator_stack@.len() > 0,
                    expression_stack@.len() == operator_stack@.len() + 1,
                    self.remaining_spec() < rem_it || (self.remaining_spec() == rem_it
                        && operator_stack@.len() == ops_it),
                decreases self.remaining_spec(),
            {
                let op_lexeme = self.eat();
                let (operator, precedence) = match Operator::from_str(op_lexeme.as_str()) {
                    Some(op) => op,
                    None => {
                        return Err(ParseError::UnexpectedToken);
                    },
                };
                let top_precedence = operator_stack[operator_stack.len() - 1].1;
                if precedence < top_precedence {
                    let right = expression_stack.pop().unwrap();
                    let reduced_left = expression_stack.pop().unwrap();
                    let (top_op, _top_prec) = operator_stack.pop().unwrap();
                    expression_stack.push(
                        Expression::Binary(Box::new(reduced_left), top_op, Box::new(right)),
                    );
                    if self.remaining() > 0 {
                        match self.parse_atom() {
                            Ok(e) => {
                                expression_stack.push(e);
                            },
                            Err(er) => {
                                return Err(er);
                            },
                        }
                        operator_stack.push((operator, precedence));
                    } else {
                        return Err(ParseError::UnexpectedEnd);
                    }
                } else {
                    if self.remaining() == 0 {
                        return Err(ParseError::UnexpectedEnd);
                    }
                    match self.parse_atom() {
                        Ok(e) => {
                            expression_stack.push(e);
                        },
                        Err(er) => {
                            return Err(er);
                        },
                    }
                    operator_stack.push((operator, precedence));
                }
            }
            let right = expression_stack.pop().unwrap();
            let reduced_left = expression_stack.pop().unwrap();
            let (top_op, _top_prec) = operator_stack.pop().unwrap();
            expression_stack.push(
                Expression::Binary(Box::new(reduced_left), top_op, Box::new(right)),
            );
        }
        Ok(expression_stack.pop().unwrap())
    }

    /// Folds fully literal nodes to their values, exactly as `fold_spec`
    /// describes.
    pub fn fold_expression(expression: &Expression) -> (r: Expression)
        ensures
            r == fold_spec(*expression),
        decreases *expression,
    {
        match expression {
            Expression::Binary(l, op, r) => {
                let lf = Self::fold_expression(l);
                let rf = Self::fold_expression(r);
                match (&lf, op, &rf) {
                    (Expression::Int(a), Operator::Add, Expression::Int(b)) => {
                        match a.checked_add(*b) {
                            Some(v) => Expression::Int(v),
                            None => clone_expression(expression),
                        }
                    },
                    (Expression::Int(a), Operator::Sub, Expression::Int(b)) => {
                        match a.checked_sub(*b) {
                            Some(v) => Expression::Int(v),
                            None => clone_expression(expression),
                        }
                    },
                    (Expression::Int(a), Operator::Mul, Expression::Int(b)) => {
                        match a.checked_mul(*b) {
                            Some(v) => Expression::Int(v),
                            None => clone_expression(expression),
                        }
                    },
                    (Expression::Int(a), Operator::Div, Expression::Int(b)) => {
                        match a.checked_div(*b) {
                            Some(v) => Expression::Int(v),
                            None => clone_expression(expression),
                        }
                    },
                    (Expression::Double(a), Operator::Add, Expression::Double(b)) => {
                        Expression::Double(crate::double::double_add(*a, *b))
                    },
                    (Expression::Double(a), Operator::Sub, Expression::Double(b)) => {
                        Expression::Double(crate::double::double_sub(*a, *b))
                    },
                    (Expression::Double(a), Operator::Mul, Expression::Double(b)) => {
                        Expression::Double(crate::double::double_mul(*a, *b))
                    },
                    (Expression::Double(a), Operator::Div, Expression::Double(b)) => {
                        Expression::Double(crate::double::double_div(*a, *b))
                    },
                    _ => clone_expression(expression),
                }
            },
            _ => clone_expression(expression),
        }
    }
}

} // verus!
