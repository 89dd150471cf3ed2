use crate::ast::NodeView;
use crate::decimal::{decimal_digits, decimal_value, lemma_decimal_digits};
use crate::error::Failure;
use crate::grammar::{
    expression, lemma_expression_advances, lemma_statement_advances, lemma_statements_advance,
    parse, starts_statement, statement, statements,
};
use crate::lexer::{
    is_word, lemma_run_end, lemma_token_at_advances, lex, run_end, spec_belongs, spec_is_space,
    token_at, tokens_from, word_token, CharClass,
};
use crate::token::{LexemeView, TokenView, Tokens};
use crate::value::{Operator, ValueView};
use vstd::prelude::*;

verus! {

/// The token that spells an operator.
pub open spec fn operator_token(op: Operator) -> TokenView {
    match op {
        Operator::Plus => TokenView::Plus,
        Operator::Minus => TokenView::Minus,
        Operator::Bang => TokenView::Bang,
    }
}

/// The token that spells the value of a literal.
pub open spec fn literal_token(value: ValueView) -> TokenView {
    match value {
        ValueView::Int(n) => TokenView::Integer(n),
        ValueView::Str(s) => TokenView::Str(s),
        ValueView::Boolean(b) => TokenView::Boolean(b),
        _ => TokenView::Boolean(false),
    }
}

impl NodeView {
    /// The tokens that spell a grammatical node. An assignment is spelled
    /// with `let`.
    pub open spec fn tokens(self) -> Seq<TokenView>
        decreases self,
    {
        match self {
            NodeView::Literal(value) => seq![literal_token(value)],
            NodeView::Unary(op, operand) => seq![operator_token(op)] + operand.tokens(),
            NodeView::Identifier(name) => seq![TokenView::Identifier(name)],
            NodeView::Variable(name) => seq![TokenView::Var, TokenView::Identifier(name)],
            NodeView::Assignment(name, value) => seq![
                TokenView::Let,
                TokenView::Identifier(name),
                TokenView::Assign,
            ] + value.tokens(),
            NodeView::Print(expr) => seq![TokenView::Print] + expr.tokens(),
            NodeView::Block(stmts) => seq![TokenView::LeftBrace] + spelling(stmts) + seq![
                TokenView::RightBrace,
            ],
            NodeView::Null => Seq::empty(),
        }
    }
}

/// The tokens that spell statements in a row.
pub open spec fn spelling(nodes: Seq<NodeView>) -> Seq<TokenView>
    decreases nodes,
{
    if nodes.len() == 0 {
        Seq::empty()
    } else {
        nodes.first().tokens() + spelling(nodes.drop_first())
    }
}

impl Tokens {
    /// Whether the tokens from `at` on are `kinds`, then more or none.
    pub open spec fn spells(self, at: int, kinds: Seq<TokenView>) -> bool {
        &&& 0 <= at
        &&& at + kinds.len() <= self.lexemes.len()
        &&& forall|k: int|
            0 <= k < kinds.len() ==> (#[trigger] self.lexemes[at + k]).token == kinds[k]
    }
}

/// Tokens that spell two sequences in a row spell each of them in its
/// place.
pub proof fn lemma_spells_split(
    tokens: Tokens,
    at: int,
    front: Seq<TokenView>,
    back: Seq<TokenView>,
)
    requires
        tokens.spells(at, front + back),
    ensures
        tokens.spells(at, front),
        tokens.spells(at + front.len(), back),
{
    assert forall|k: int| 0 <= k < front.len() implies (#[trigger] tokens.lexemes[at + k]).token
        == front[k] by {
        assert((front + back)[k] == front[k]);
    }
    assert forall|k: int| 0 <= k < back.len() implies (#[trigger] tokens.lexemes[at + front.len()
        + k]).token == back[k] by {
        assert(tokens.lexemes[at + (front.len() + k)].token == (front + back)[front.len() + k]);
    }
}

/// A grammatical node is spelled by at least one token, and the first one
/// starts a statement.
pub proof fn lemma_tokens_start(node: NodeView)
    requires
        node.grammatical(),
    ensures
        node.tokens().len() > 0,
        starts_statement(node.tokens()[0]),
        node.is_expression() ==> !(node.tokens()[0] is Print) && !(node.tokens()[0] is Var) && !(
        node.tokens()[0] is Let),
{
}

/// The tokens that spell a grammatical expression are parsed back to it.
pub proof fn lemma_expression_of_tokens(tokens: Tokens, at: int, node: NodeView)
    requires
        node.grammatical(),
        node.is_expression(),
        tokens.spells(at, node.tokens()),
    ensures
        expression(tokens, at) == Ok::<_, Failure>((node, at + node.tokens().len())),
    decreases node, 0int,
{
    reveal_with_fuel(NodeView::grammatical, 2);
    reveal_with_fuel(NodeView::tokens, 2);
    assert(tokens.lexemes[at + 0].token == node.tokens()[0]);
    if let NodeView::Block(stmts) = node {
        let inner = spelling(stmts);
        let opening = seq![TokenView::LeftBrace];
        lemma_spells_split(tokens, at, opening + inner, seq![TokenView::RightBrace]);
        lemma_spells_split(tokens, at, opening, inner);
        lemma_statements_of_tokens(tokens, at + 1, stmts);
    }
}

/// The tokens that spell grammatical statements in a row, up to the end of
/// the tokens or to a right brace, are parsed back to the statements.
pub proof fn lemma_statements_of_tokens(tokens: Tokens, at: int, nodes: Seq<NodeView>)
    requires
        forall|i: int| 0 <= i < nodes.len() ==> (#[trigger] nodes[i]).grammatical(),
        tokens.spells(at, spelling(nodes)),
        tokens.token(at + spelling(nodes).len()) matches Some(token) ==> token is RightBrace,
    ensures
        statements(tokens, at) == Ok::<_, Failure>(
            (nodes, at + spelling(nodes).len()),
        ),
    decreases nodes, 2int,
{
    if nodes.len() > 0 {
        let first = nodes.first();
        let rest = nodes.drop_first();
        lemma_spells_split(tokens, at, first.tokens(), spelling(rest));
        if rest.len() > 0 {
            lemma_tokens_start(rest.first());
        }
        lemma_statement_of_tokens(tokens, at, first);
        lemma_statements_of_tokens(tokens, at + first.tokens().len(), rest);
        assert(seq![first] + rest =~= nodes);
    } else {
        assert(nodes =~= Seq::<NodeView>::empty());
    }
}

/// The tokens that spell a grammatical statement are parsed back to it,
/// unless `=` follows them: before `=`, an identifier is not a statement by
/// itself.
pub proof fn lemma_statement_of_tokens(tokens: Tokens, at: int, node: NodeView)
    requires
        node.grammatical(),
        tokens.spells(at, node.tokens()),
        tokens.token(at + node.tokens().len()) != Some(TokenView::Assign),
    ensures
        statement(tokens, at) == Ok::<_, Failure>((node, at + node.tokens().len())),
    decreases node, 1int,
{
    let kinds = node.tokens();
    assert(tokens.lexemes[at + 0].token == kinds[0]);
    match node {
        NodeView::Assignment(name, value) => {
            assert(tokens.lexemes[at + 2].token == kinds[2]);
            lemma_spells_split(
                tokens,
                at,
                seq![TokenView::Let, TokenView::Identifier(name), TokenView::Assign],
                value.tokens(),
            );
            lemma_expression_of_tokens(tokens, at + 3, *value);
        },
        NodeView::Print(expr) => {
            lemma_spells_split(tokens, at, seq![TokenView::Print], expr.tokens());
            lemma_expression_of_tokens(tokens, at + 1, *expr);
        },
        NodeView::Variable(_) | NodeView::Identifier(_) => {},
        _ => {
            lemma_expression_of_tokens(tokens, at, node);
        },
    }
}

impl Tokens {
    /// The tokens without their places.
    pub open spec fn kinds(self) -> Seq<TokenView> {
        Seq::new(self.lexemes.len(), |i: int| self.lexemes[i].token)
    }
}

/// Tokens in a row without the `let`s among them.
pub open spec fn without_let(kinds: Seq<TokenView>) -> Seq<TokenView>
    decreases kinds.len(),
{
    if kinds.len() == 0 {
        kinds
    } else if kinds.first() is Let {
        without_let(kinds.drop_first())
    } else {
        seq![kinds.first()] + without_let(kinds.drop_first())
    }
}

/// Leaving out the `let`s of two sequences in a row is leaving them out of
/// each.
pub proof fn lemma_without_let_add(front: Seq<TokenView>, back: Seq<TokenView>)
    ensures
        without_let(front + back) == without_let(front) + without_let(back),
    decreases front.len(),
{
    if front.len() > 0 {
        lemma_without_let_add(front.drop_first(), back);
        assert((front + back).drop_first() =~= front.drop_first() + back);
    }
}

/// The tokens from which an expression was parsed are, but for `let`, those
/// that spell it.
pub proof fn lemma_expression_is_spelled(tokens: Tokens, at: int)
    ensures
        expression(tokens, at) matches Ok((node, next)) ==> without_let(
            tokens.kinds().subrange(at, next),
        ) == without_let(node.tokens()),
    decreases tokens.lexemes.len() - at, 1int,
{
    reveal_with_fuel(NodeView::tokens, 2);
    lemma_expression_advances(tokens, at);
    if let Ok((node, next)) = expression(tokens, at) {
        let kinds = tokens.kinds();
        match node {
            NodeView::Block(stmts) => {
                lemma_statements_are_spelled(tokens, at + 1);
                let inner = kinds.subrange(at + 1, next - 1);
                let opening = seq![TokenView::LeftBrace];
                let closing = seq![TokenView::RightBrace];
                assert(kinds.subrange(at, next) =~= opening + inner + closing);
                lemma_without_let_add(opening + inner, closing);
                lemma_without_let_add(opening, inner);
                lemma_without_let_add(opening + spelling(stmts), closing);
                lemma_without_let_add(opening, spelling(stmts));
            },
            _ => {
                assert(kinds.subrange(at, next) =~= node.tokens());
            },
        }
    }
}

/// The tokens from which statements in a row were parsed are, but for
/// `let`, those that spell them.
pub proof fn lemma_statements_are_spelled(tokens: Tokens, at: int)
    requires
        0 <= at <= tokens.lexemes.len(),
    ensures
        statements(tokens, at) matches Ok((nodes, end)) ==> without_let(
            tokens.kinds().subrange(at, end),
        ) == without_let(spelling(nodes)),
    decreases tokens.lexemes.len() - at, 4int,
{
    if let Ok((nodes, end)) = statements(tokens, at) {
        let kinds = tokens.kinds();
        if nodes.len() > 0 {
            lemma_statement_is_spelled(tokens, at);
            let (first, next) = statement(tokens, at)->Ok_0;
            lemma_statements_advance(tokens, next);
            lemma_statements_are_spelled(tokens, next);
            let rest = statements(tokens, next)->Ok_0.0;
            assert(nodes.drop_first() =~= rest);
            assert(kinds.subrange(at, end) =~= kinds.subrange(at, next) + kinds.subrange(
                next,
                end,
            ));
            lemma_without_let_add(kinds.subrange(at, next), kinds.subrange(next, end));
            lemma_without_let_add(first.tokens(), spelling(rest));
        }
    }
}

/// The tokens from which a statement was parsed are, but for `let`, those
/// that spell it.
pub proof fn lemma_statement_is_spelled(tokens: Tokens, at: int)
    ensures
        statement(tokens, at) matches Ok((node, next)) ==> without_let(
            tokens.kinds().subrange(at, next),
        ) == without_let(node.tokens()),
    decreases tokens.lexemes.len() - at, 3int,
{
    lemma_statement_advances(tokens, at);
    if let Ok((node, next)) = statement(tokens, at) {
        let kinds = tokens.kinds();
        let part = kinds.subrange(at, next);
        match tokens.token(at) {
            Some(TokenView::Print) => {
                lemma_expression_is_spelled(tokens, at + 1);
                let front = seq![TokenView::Print];
                let expr = node->Print_0;
                assert(part =~= front + kinds.subrange(at + 1, next));
                lemma_without_let_add(front, kinds.subrange(at + 1, next));
                lemma_without_let_add(front, expr.tokens());
            },
            Some(TokenView::Var) => {
                assert(part =~= node.tokens());
            },
            Some(TokenView::Let) => {
                lemma_expression_is_spelled(tokens, at + 3);
                let name = node->Assignment_0;
                let value = node->Assignment_1;
                let front = seq![TokenView::Let, TokenView::Identifier(name), TokenView::Assign];
                assert(part =~= front + kinds.subrange(at + 3, next));
                lemma_without_let_add(front, kinds.subrange(at + 3, next));
                lemma_without_let_add(front, value.tokens());
            },
            Some(TokenView::Identifier(name)) => {
                if tokens.token(at + 1) == Some(TokenView::Assign) {
                    lemma_expression_advances(tokens, at + 2);
                    lemma_expression_is_spelled(tokens, at + 2);
                    let value = node->Assignment_1;
                    let written = seq![TokenView::Identifier(name), TokenView::Assign];
                    let front = seq![TokenView::Let] + written;
                    assert(part =~= written + kinds.subrange(at + 2, next));
                    assert(node.tokens() =~= front + value.tokens());
                    assert(front.drop_first() =~= written);
                    lemma_without_let_add(written, kinds.subrange(at + 2, next));
                    lemma_without_let_add(front, value.tokens());
                }
            },
            _ => {
                lemma_expression_is_spelled(tokens, at);
            },
        }
    }
}

/// Parsing forgets nothing but `let`: the tokens of a text that parses
/// are, but for the `let`s, those that spell the nodes of the parse.
pub proof fn law_parse_is_spelled(text: Seq<char>)
    ensures
        parse(text) matches Ok(nodes) ==> without_let(lex(text)->Ok_0.kinds()) == without_let(
            spelling(nodes),
        ),
{
    if let Ok(nodes) = parse(text) {
        let tokens = lex(text)->Ok_0;
        lemma_statements_are_spelled(tokens, 0);
        assert(tokens.kinds().subrange(0, tokens.lexemes.len() as int) =~= tokens.kinds());
    }
}

/// The text that spells a token.
pub open spec fn token_text(token: TokenView) -> Seq<char> {
    match token {
        TokenView::Print => "print"@,
        TokenView::Var => "var"@,
        TokenView::Let => "let"@,
        TokenView::Assign => seq!['='],
        TokenView::Plus => seq!['+'],
        TokenView::Minus => seq!['-'],
        TokenView::Bang => seq!['!'],
        TokenView::LeftBrace => seq!['{'],
        TokenView::RightBrace => seq!['}'],
        TokenView::Integer(n) => decimal_digits(n as nat),
        TokenView::Str(s) => seq!['"'] + s + seq!['"'],
        TokenView::Boolean(b) => if b {
            "true"@
        } else {
            "false"@
        },
        TokenView::Identifier(name) => name,
    }
}

/// Whether the text of a token is a word: so it is for the keywords, the
/// booleans and the identifiers.
pub open spec fn is_wordlike(token: TokenView) -> bool {
    token is Print || token is Var || token is Let || token is Boolean || token is Identifier
}

/// Whether a character that follows the text of a token would be read as
/// part of the token: a digit after an integer, and a letter, a digit or an
/// underscore after a word.
pub open spec fn continues(token: TokenView, c: char) -> bool {
    (token is Integer && spec_belongs(CharClass::Digit, c)) || (is_wordlike(token) && spec_belongs(
        CharClass::Word,
        c,
    ))
}

/// Whether two tokens have to be kept apart by a space: written without
/// one, an integer before an integer, and a word before a word or an
/// integer, would run together.
pub open spec fn run_together(first: TokenView, second: TokenView) -> bool {
    (first is Integer && second is Integer) || (is_wordlike(first) && (is_wordlike(second)
        || second is Integer))
}

/// Whether a sequence of characters holds nothing but spaces, tabs and line
/// ends.
pub open spec fn is_gap(gap: Seq<char>) -> bool {
    forall|k: int| 0 <= k < gap.len() ==> spec_is_space(#[trigger] gap[k])
}

/// Whether `gaps` can stand around the tokens: one gap before each token
/// and one after the last, none of them empty between two tokens that would
/// run together.
pub open spec fn fits(kinds: Seq<TokenView>, gaps: Seq<Seq<char>>) -> bool {
    &&& gaps.len() == kinds.len() + 1
    &&& forall|i: int| 0 <= i < gaps.len() ==> is_gap(#[trigger] gaps[i])
    &&& forall|i: int|
        0 < i < kinds.len() && run_together(kinds[i - 1], kinds[i]) ==> (#[trigger] gaps[i]).len()
            > 0
}

/// The text that spells tokens in a row, with a gap before each token and
/// one after the last.
pub open spec fn layout(kinds: Seq<TokenView>, gaps: Seq<Seq<char>>) -> Seq<char>
    decreases kinds.len(),
{
    if kinds.len() == 0 {
        gaps.first()
    } else {
        gaps.first() + token_text(kinds.first()) + layout(kinds.drop_first(), gaps.drop_first())
    }
}

/// The tokens of `layout(kinds, gaps)` with their places, where the text
/// starts at `start`.
pub open spec fn places(kinds: Seq<TokenView>, gaps: Seq<Seq<char>>, start: int) -> Seq<
    LexemeView,
>
    decreases kinds.len(),
{
    if kinds.len() == 0 {
        Seq::empty()
    } else {
        let at = start + gaps.first().len();
        seq![LexemeView { token: kinds.first(), position: at }] + places(
            kinds.drop_first(),
            gaps.drop_first(),
            at + token_text(kinds.first()).len(),
        )
    }
}

/// `places` keeps the tokens and their order.
pub proof fn lemma_places(kinds: Seq<TokenView>, gaps: Seq<Seq<char>>, start: int)
    ensures
        places(kinds, gaps, start).len() == kinds.len(),
        forall|k: int|
            0 <= k < kinds.len() ==> (#[trigger] places(kinds, gaps, start)[k]).token == kinds[k],
    decreases kinds.len(),
{
    if kinds.len() > 0 {
        let next = start + gaps.first().len() + token_text(kinds.first()).len();
        lemma_places(kinds.drop_first(), gaps.drop_first(), next);
        assert forall|k: int| 0 <= k < kinds.len() implies (#[trigger] places(
            kinds,
            gaps,
            start,
        )[k]).token == kinds[k] by {}
    }
}

/// A run is known by its two ends: characters of the class from `start` to
/// `end`, and none of the class at `end`.
pub proof fn lemma_run_end_is(text: Seq<char>, start: int, end: int, class: CharClass)
    requires
        0 <= start <= end <= text.len(),
        forall|k: int| start <= k < end ==> spec_belongs(class, #[trigger] text[k]),
        end < text.len() ==> !spec_belongs(class, text[end]),
    ensures
        run_end(text, start, class) == end,
    decreases end - start,
{
    if start < end {
        lemma_run_end_is(text, start + 1, end, class);
    }
}

/// What the keywords are made of.
pub proof fn lemma_keywords()
    ensures
        is_word("print"@) && is_word("var"@) && is_word("let"@) && is_word("true"@) && is_word(
            "false"@,
        ),
        word_token("print"@) == TokenView::Print,
        word_token("var"@) == TokenView::Var,
        word_token("let"@) == TokenView::Let,
        word_token("true"@) == TokenView::Boolean(true),
        word_token("false"@) == TokenView::Boolean(false),
{
    reveal_strlit("print");
    reveal_strlit("var");
    reveal_strlit("let");
    reveal_strlit("true");
    reveal_strlit("false");
    assert("var"@[0] == 'v' && "let"@[0] == 'l' && "print"@[0] == 'p' && "false"@[0] == 'f');
}

/// The text of a well-formed token starts with a character that is no
/// space, and that continues no token after which the token may stand
/// without a gap.
pub proof fn lemma_token_text_starts(token: TokenView)
    requires
        token.well_formed(),
    ensures
        token_text(token).len() > 0,
        !spec_is_space(token_text(token)[0]),
        forall|before: TokenView|
            !run_together(before, token) ==> !continues(before, #[trigger] token_text(token)[0]),
{
    lemma_keywords();
    if let TokenView::Integer(n) = token {
        lemma_decimal_digits(n as nat);
    }
}

/// Whether some characters spell a token: they are the text of the token,
/// or, for an integer, decimal digits that spell its number, with any zeros
/// in front.
pub open spec fn reads_as(characters: Seq<char>, token: TokenView) -> bool {
    match token {
        TokenView::Integer(n) => {
            &&& characters.len() > 0
            &&& forall|k: int|
                0 <= k < characters.len() ==> spec_belongs(
                    CharClass::Digit,
                    #[trigger] characters[k],
                )
            &&& decimal_value(characters) == n
        },
        _ => characters == token_text(token),
    }
}

/// A token is read from characters that spell it.
pub proof fn law_token_is_spelled(text: Seq<char>, start: int)
    requires
        0 <= start < text.len(),
    ensures
        token_at(text, start) matches Ok((token, end)) ==> start < end <= text.len() && reads_as(
            text.subrange(start, end),
            token,
        ),
{
    lemma_token_at_advances(text, start);
    if let Ok((token, end)) = token_at(text, start) {
        let characters = text.subrange(start, end);
        match token {
            TokenView::Integer(_) => {
                lemma_run_end(text, start, CharClass::Digit);
            },
            TokenView::Str(s) => {
                lemma_run_end(text, start + 1, CharClass::Quoted);
                assert(characters =~= seq!['"'] + s + seq!['"']);
            },
            TokenView::Print
            | TokenView::Var
            | TokenView::Let
            | TokenView::Boolean(_)
            | TokenView::Identifier(_) => {},
            _ => {
                assert(characters =~= token_text(token));
            },
        }
    }
}

/// Whether a text from `start` on holds nothing but the given tokens, each
/// at its place and spelled out, and gaps between and around them.
pub open spec fn consists_of(text: Seq<char>, start: int, lexemes: Seq<LexemeView>) -> bool
    decreases lexemes.len(),
{
    if lexemes.len() == 0 {
        0 <= start <= text.len() && is_gap(text.subrange(start, text.len() as int))
    } else {
        let first = lexemes.first();
        &&& 0 <= start <= first.position
        &&& is_gap(text.subrange(start, first.position))
        &&& exists|end: int|
            first.position < end <= text.len() && reads_as(
                #[trigger] text.subrange(first.position, end),
                first.token,
            ) && consists_of(text, end, lexemes.drop_first())
    }
}

/// A text that has tokens holds nothing but them: each token stands
/// spelled out at its place, and all that stands between and around the
/// tokens is spaces, tabs and line ends.
pub proof fn law_text_consists_of_tokens(text: Seq<char>, start: int)
    requires
        0 <= start <= text.len(),
    ensures
        tokens_from(text, start) matches Ok(lexemes) ==> consists_of(text, start, lexemes),
    decreases text.len() - start,
{
    let at = run_end(text, start, CharClass::Space);
    lemma_run_end(text, start, CharClass::Space);
    if at < text.len() {
        law_token_is_spelled(text, at);
        if let Ok((token, end)) = token_at(text, at) {
            law_text_consists_of_tokens(text, end);
            if let Ok(rest) = tokens_from(text, end) {
                let lexemes = tokens_from(text, start)->Ok_0;
                assert(lexemes.drop_first() =~= rest);
                assert(consists_of(text, start, lexemes));
            }
        }
    }
}

/// The text of a well-formed token is read back as the token, where no
/// character follows it that would be read as part of it.
pub proof fn lemma_token_of_text(text: Seq<char>, start: int, token: TokenView)
    requires
        token.well_formed(),
        0 <= start,
        start + token_text(token).len() <= text.len(),
        text.subrange(start, start + token_text(token).len()) == token_text(token),
        start + token_text(token).len() < text.len() ==> !continues(
            token,
            text[start + token_text(token).len()],
        ),
    ensures
        token_at(text, start) == Ok::<_, Failure>((token, start + token_text(token).len())),
{
    let spelled = token_text(token);
    let end = start + spelled.len();
    assert forall|k: int| start <= k < end implies text[k] == spelled[k - start] by {
        assert(text.subrange(start, end)[k - start] == text[k]);
    }
    lemma_keywords();
    match token {
        TokenView::Integer(n) => {
            lemma_decimal_digits(n as nat);
            lemma_run_end_is(text, start, end, CharClass::Digit);
        },
        TokenView::Str(s) => {
            lemma_run_end_is(text, start + 1, end - 1, CharClass::Quoted);
            assert(text.subrange(start + 1, end - 1) =~= s);
        },
        TokenView::Print
        | TokenView::Var
        | TokenView::Let
        | TokenView::Boolean(_)
        | TokenView::Identifier(_) => {
            lemma_run_end_is(text, start, end, CharClass::Word);
        },
        _ => {},
    }
}

/// Well-formed tokens that are laid out with gaps that fit them are read
/// back from the text, each at its place.
pub proof fn lemma_tokens_of_layout(before: Seq<char>, kinds: Seq<TokenView>, gaps: Seq<Seq<char>>)
    requires
        forall|k: int| 0 <= k < kinds.len() ==> (#[trigger] kinds[k]).well_formed(),
        fits(kinds, gaps),
    ensures
        tokens_from(before + layout(kinds, gaps), before.len() as int) == Ok::<_, Failure>(
            places(kinds, gaps, before.len() as int),
        ),
    decreases kinds.len(),
{
    let text = before + layout(kinds, gaps);
    let start = before.len() as int;
    let gap = gaps.first();
    let at = start + gap.len();
    if kinds.len() == 0 {
        lemma_run_end_is(text, start, at, CharClass::Space);
    } else {
        let first = kinds.first();
        let rest = kinds.drop_first();
        let later = gaps.drop_first();
        let spelled = token_text(first);
        let end = at + spelled.len();
        let front = before + gap + spelled;
        lemma_token_text_starts(first);
        assert(text =~= front + layout(rest, later));
        lemma_run_end_is(text, start, at, CharClass::Space);
        assert(text.subrange(at, end) =~= spelled);
        assert(fits(rest, later));
        if end < text.len() && later.first().len() == 0 {
            lemma_token_text_starts(rest.first());
        }
        lemma_token_of_text(text, at, first);
        lemma_tokens_of_layout(front, rest, later);
    }
}

/// Parsing undoes spelling: a text that spells grammatical statements, with
/// well-formed names and strings and with any gaps that fit between the
/// tokens, is parsed back to the statements.
pub proof fn law_parse_inverts_spelling(nodes: Seq<NodeView>, gaps: Seq<Seq<char>>)
    requires
        forall|i: int| 0 <= i < nodes.len() ==> (#[trigger] nodes[i]).grammatical(),
        forall|k: int|
            0 <= k < spelling(nodes).len() ==> (#[trigger] spelling(nodes)[k]).well_formed(),
        fits(spelling(nodes), gaps),
    ensures
        parse(layout(spelling(nodes), gaps)) == Ok::<_, Failure>(nodes),
{
    let kinds = spelling(nodes);
    let text = layout(kinds, gaps);
    lemma_tokens_of_layout(Seq::empty(), kinds, gaps);
    lemma_places(kinds, gaps, 0);
    let tokens = Tokens { lexemes: places(kinds, gaps, 0), end: text.len() as int };
    lemma_statements_of_tokens(tokens, 0, nodes);
}

} // verus!
