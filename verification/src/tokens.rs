//! Source text as trees of tokens, and which runs of them Rust's grammar accepts.
use proc_macro2::Delimiter as OutsideDelimiter;
use proc_macro2::{Group, Punct, Spacing, TokenStream, TokenTree};
use vstd::prelude::*;
use vstd::string::*;

verus! {

/// What stands around a group of tokens. Around an invisible group stands
/// nothing: it is what a macro was given as one fragment.
#[derive(Clone, Copy, Debug, PartialEq, Eq, Structural)]
pub enum Delimiter {
    Parenthesis,
    Brace,
    Bracket,
    Invisible,
}

/// An identifier, as it came.
#[derive(Debug)]
pub struct Name {
    text: String,
    token: TokenTree,
}

/// A literal, as it came.
#[derive(Debug)]
pub struct Value {
    text: String,
    token: TokenTree,
}

/// A token, or a group of them. A `Punct` is `joint` where the next one belongs
/// to the same operator.
#[derive(Debug)]
pub enum Token {
    Ident(Name),
    Punct { mark: char, joint: bool },
    Literal(Value),
    Group(Delimiter, Vec<Token>),
}

impl View for Name {
    type V = Seq<char>;

    closed spec fn view(&self) -> Seq<char> {
        self.text@
    }
}

impl Name {
    #[verifier::type_invariant]
    spec fn is_its_token(self) -> bool {
        tree_of(self.token) == Tree::Ident(self.text@)
    }

    pub fn text(&self) -> (text: &String)
        ensures
            text@ == self@,
    {
        &self.text
    }
}

impl View for Value {
    type V = Seq<char>;

    closed spec fn view(&self) -> Seq<char> {
        self.text@
    }
}

impl Value {
    #[verifier::type_invariant]
    spec fn is_its_token(self) -> bool {
        tree_of(self.token) == Tree::Literal(self.text@)
    }

    pub fn text(&self) -> (text: &String)
        ensures
            text@ == self@,
    {
        &self.text
    }
}

/// The tokens behind some references.
pub open spec fn plain(refs: Seq<&Token>) -> Seq<Token> {
    Seq::new(refs.len(), |i: int| *refs[i])
}

/// A token as a value: the text of an identifier or a literal, a mark, or a
/// group.
pub enum Tree {
    Ident(Seq<char>),
    Mark { mark: char, joint: bool },
    Literal(Seq<char>),
    Group(Delimiter, Seq<Tree>),
}

/// A token as a value.
pub open spec fn tree(token: Token) -> Tree
    decreases token,
{
    match token {
        Token::Ident(name) => Tree::Ident(name@),
        Token::Punct { mark, joint } => Tree::Mark { mark, joint },
        Token::Literal(value) => Tree::Literal(value@),
        Token::Group(delimiter, inner) => Tree::Group(delimiter, trees(inner@)),
    }
}

/// Tokens as values.
pub open spec fn trees(tokens: Seq<Token>) -> Seq<Tree>
    decreases tokens,
{
    if tokens.len() == 0 {
        Seq::empty()
    } else {
        trees(tokens.subrange(0, tokens.len() - 1)).push(tree(tokens[tokens.len() - 1]))
    }
}

/// The marks that Rust's tokens are made of.
pub open spec fn is_rust_mark(mark: char) -> bool {
    ||| mark == '!' || mark == '#' || mark == '$' || mark == '%' || mark == '&' || mark == '\''
    ||| mark == '*' || mark == '+' || mark == ',' || mark == '-' || mark == '.' || mark == '/'
    ||| mark == ':' || mark == ';' || mark == '<' || mark == '=' || mark == '>' || mark == '?'
    ||| mark == '@' || mark == '^' || mark == '|' || mark == '~'
}

/// The text of a number below zero. A stream holds such a number as two tokens.
pub open spec fn is_negative(text: Seq<char>) -> bool {
    text.len() > 0 && text[0] == '-'
}

/// A stream can hold the token as it is.
pub open spec fn is_rust_token(token: Token) -> bool
    decreases token,
{
    match token {
        Token::Ident(_) => true,
        Token::Punct { mark, .. } => is_rust_mark(mark),
        Token::Literal(value) => !is_negative(value@),
        Token::Group(_, inner) => are_rust_tokens(inner@),
    }
}

/// A stream can hold the tokens as they are.
pub open spec fn are_rust_tokens(tokens: Seq<Token>) -> bool
    decreases tokens,
{
    if tokens.len() == 0 {
        true
    } else {
        are_rust_tokens(tokens.subrange(0, tokens.len() - 1)) && is_rust_token(
            tokens[tokens.len() - 1],
        )
    }
}

/// `proc_macro2::TokenStream`: tokens as `syn` reads them. They are the compiler's
/// inside of a macro and `proc_macro2`'s own elsewhere, and it panics where its own
/// are put among the compiler's. That takes a call of `fallback::unforce` between
/// the making of the tokens and their reading.
#[verifier::external_type_specification]
#[verifier::external_body]
pub struct ExTokenStream(TokenStream);

/// `proc_macro2::TokenTree`: a token, or a group of them.
#[verifier::external_type_specification]
#[verifier::external_body]
pub struct ExTokenTree(TokenTree);

/// The tokens that a stream holds.
pub uninterp spec fn stream_trees(stream: TokenStream) -> Seq<Tree>;

/// What a token is, and what it holds where it is a group.
pub uninterp spec fn tree_of(token: TokenTree) -> Tree;

/// A token, taken apart.
enum Piece {
    Ident(String),
    Punct { mark: char, joint: bool },
    Literal(String),
    Group(Delimiter, TokenStream),
}

spec fn piece_tree(piece: Piece) -> Tree {
    match piece {
        Piece::Ident(text) => Tree::Ident(text@),
        Piece::Punct { mark, joint } => Tree::Mark { mark, joint },
        Piece::Literal(text) => Tree::Literal(text@),
        Piece::Group(delimiter, inner) => Tree::Group(delimiter, stream_trees(inner)),
    }
}

/// `TokenStream::into_iter` of `proc_macro2`: the tokens of a stream, in order.
#[verifier::external_body]
fn tokens_in(stream: TokenStream) -> (list: Vec<TokenTree>)
    ensures
        list@.len() == stream_trees(stream).len(),
        forall|i: int| 0 <= i < list@.len() ==> tree_of(#[trigger] list@[i]) == stream_trees(stream)[i],
{
    stream.into_iter().collect()
}

/// The variants of `proc_macro2::TokenTree`, with the parts of each: the text of an
/// identifier or a literal, by `to_string`; a mark with its spacing; and a group's
/// delimiter and stream.
#[verifier::external_body]
fn taken_apart(token: &TokenTree) -> (piece: Piece)
    ensures
        piece_tree(piece) == tree_of(*token),
{
    match token {
        TokenTree::Ident(ident) => Piece::Ident(ident.to_string()),
        TokenTree::Punct(punct) => Piece::Punct {
            mark: punct.as_char(),
            joint: matches!(punct.spacing(), Spacing::Joint),
        },
        TokenTree::Literal(literal) => Piece::Literal(literal.to_string()),
        TokenTree::Group(group) => match group.delimiter() {
            OutsideDelimiter::Parenthesis => Piece::Group(Delimiter::Parenthesis, group.stream()),
            OutsideDelimiter::Brace => Piece::Group(Delimiter::Brace, group.stream()),
            OutsideDelimiter::Bracket => Piece::Group(Delimiter::Bracket, group.stream()),
            OutsideDelimiter::None => Piece::Group(Delimiter::Invisible, group.stream()),
        },
    }
}

/// `TokenStream::new` of `proc_macro2`: a stream of no tokens.
#[verifier::external_body]
fn no_tokens() -> (stream: TokenStream)
    ensures
        stream_trees(stream) == Seq::<Tree>::empty(),
{
    TokenStream::new()
}

/// `extend` of `proc_macro2::TokenStream`, with one token: appends it as it is. Of a
/// number below zero it makes two tokens.
#[verifier::external_body]
fn add_leaf(stream: &mut TokenStream, token: &TokenTree)
    requires
        !(tree_of(*token) matches Tree::Literal(text) && is_negative(text)),
    ensures
        stream_trees(*final(stream)) == stream_trees(*old(stream)).push(tree_of(*token)),
{
    stream.extend([token.clone()]);
}

/// `Punct::new` of `proc_macro2`, and `extend`: appends a mark. The call panics on
/// marks that Rust does not have.
#[verifier::external_body]
fn add_mark(stream: &mut TokenStream, mark: char, joint: bool)
    requires
        is_rust_mark(mark),
    ensures
        stream_trees(*final(stream)) == stream_trees(*old(stream)).push(Tree::Mark { mark, joint }),
{
    let spacing = match joint {
        true => Spacing::Joint,
        false => Spacing::Alone,
    };
    stream.extend([TokenTree::Punct(Punct::new(mark, spacing))]);
}

/// `Group::new` of `proc_macro2`, and `extend`: appends a group.
#[verifier::external_body]
fn add_group(stream: &mut TokenStream, delimiter: Delimiter, inner: TokenStream)
    ensures
        stream_trees(*final(stream)) == stream_trees(*old(stream)).push(
            Tree::Group(delimiter, stream_trees(inner)),
        ),
{
    let delimiter = match delimiter {
        Delimiter::Parenthesis => OutsideDelimiter::Parenthesis,
        Delimiter::Brace => OutsideDelimiter::Brace,
        Delimiter::Bracket => OutsideDelimiter::Bracket,
        Delimiter::Invisible => OutsideDelimiter::None,
    };
    stream.extend([TokenTree::Group(Group::new(delimiter, inner))]);
}

proof fn lemma_next_token(tokens: Seq<Token>, index: int)
    requires
        0 <= index < tokens.len(),
    ensures
        trees(tokens.subrange(0, index + 1)) == trees(tokens.subrange(0, index)).push(
            tree(tokens[index]),
        ),
        are_rust_tokens(tokens.subrange(0, index + 1)) == (are_rust_tokens(
            tokens.subrange(0, index),
        ) && is_rust_token(tokens[index])),
{
    let next = tokens.subrange(0, index + 1);
    assert(next.subrange(0, next.len() - 1) =~= tokens.subrange(0, index));
}

proof fn lemma_all_tokens(tokens: Seq<Token>, end: int)
    requires
        0 <= end <= tokens.len(),
        are_rust_tokens(tokens),
    ensures
        are_rust_tokens(tokens.subrange(0, end)),
    decreases tokens.len() - end,
{
    if end < tokens.len() {
        lemma_all_tokens(tokens, end + 1);
        lemma_next_token(tokens, end);
    } else {
        assert(tokens.subrange(0, end) =~= tokens);
    }
}

/// The tokens of a stream.
pub fn read_tokens(stream: TokenStream) -> (tokens: Vec<Token>)
    ensures
        trees(tokens@) == stream_trees(stream),
    decreases stream_trees(stream),
{
    let ghost all = stream_trees(stream);
    let list: Vec<TokenTree> = tokens_in(stream);
    let ghost given = list@;
    let mut tokens: Vec<Token> = Vec::new();
    for token in it: list
        invariant
            it.seq() == given,
            all == stream_trees(stream),
            given.len() == all.len(),
            forall|i: int| 0 <= i < given.len() ==> tree_of(#[trigger] given[i]) == all[i],
            trees(tokens@) == all.take(it.index() as int),
    {
        let ghost n = it.index() as int;
        assert(tree_of(given[n]) == all[n]);
        let next: Token = match taken_apart(&token) {
            Piece::Ident(text) => Token::Ident(Name { text, token }),
            Piece::Punct { mark, joint } => Token::Punct { mark, joint },
            Piece::Literal(text) => Token::Literal(Value { text, token }),
            Piece::Group(delimiter, inner) => {
                proof {
                    assert(all[n] == Tree::Group(delimiter, stream_trees(inner)));
                    assert(decreases_to!(all => all[n]));
                    assert(decreases_to!(all[n] => all[n]->Group_1));
                }
                Token::Group(delimiter, read_tokens(inner))
            },
        };
        assert(tree(next) == all[n]);
        let ghost before = tokens@;
        tokens.push(next);
        proof {
            assert(tokens@.subrange(0, tokens@.len() - 1) =~= before);
            assert(all.take(n + 1) =~= all.take(n).push(all[n]));
        }
    }
    assert(all.take(all.len() as int) =~= all);
    tokens
}

/// Appends a token, where a stream can hold it.
fn add_token(stream: &mut TokenStream, token: &Token) -> (added: bool)
    ensures
        added == is_rust_token(*token),
        added ==> stream_trees(*final(stream)) == stream_trees(*old(stream)).push(tree(*token)),
    decreases *token,
{
    match token {
        Token::Ident(name) => {
            proof {
                use_type_invariant(name);
            }
            add_leaf(stream, &name.token);
            true
        },
        Token::Literal(value) => {
            proof {
                use_type_invariant(value);
            }
            if value.text.as_str().unicode_len() > 0 && value.text.as_str().get_char(0) == '-' {
                false
            } else {
                add_leaf(stream, &value.token);
                true
            }
        },
        Token::Punct { mark, joint } => {
            let known: bool = matches!(
                *mark,
                '!' | '#' | '$' | '%' | '&' | '\'' | '*' | '+' | ',' | '-' | '.' | '/' | ':' | ';'
                | '<' | '=' | '>' | '?' | '@' | '^' | '|' | '~'
            );
            if known {
                add_mark(stream, *mark, *joint);
            }
            known
        },
        Token::Group(delimiter, inner) => {
            let mut inside: TokenStream = no_tokens();
            let mut index: usize = 0;
            assert(inner@.subrange(0, 0) =~= Seq::empty());
            while index < inner.len()
                invariant
                    index <= inner@.len(),
                    *token == Token::Group(*delimiter, *inner),
                    are_rust_tokens(inner@.subrange(0, index as int)),
                    stream_trees(inside) == trees(inner@.subrange(0, index as int)),
                decreases inner@.len() - index,
            {
                proof {
                    lemma_next_token(inner@, index as int);
                    assert(decreases_to!(*token => token->Group_1));
                    assert(decreases_to!(token->Group_1 => token->Group_1@));
                    assert(decreases_to!(token->Group_1@ => token->Group_1@[index as int]));
                }
                if !add_token(&mut inside, &inner[index]) {
                    proof {
                        if are_rust_tokens(inner@) {
                            lemma_all_tokens(inner@, index + 1);
                        }
                    }
                    return false;
                }
                index += 1;
            }
            assert(inner@.subrange(0, index as int) =~= inner@);
            add_group(stream, *delimiter, inside);
            true
        },
    }
}

/// The tokens as a stream, where one can hold them.
fn stream_of(tokens: &Vec<&Token>) -> (stream: Option<TokenStream>)
    ensures
        stream is Some <==> are_rust_tokens(plain(tokens@)),
        stream matches Some(stream) ==> stream_trees(stream) == trees(plain(tokens@)),
{
    let mut stream: TokenStream = no_tokens();
    let ghost all = plain(tokens@);
    let mut index: usize = 0;
    assert(all.subrange(0, 0) =~= Seq::empty());
    while index < tokens.len()
        invariant
            index <= tokens@.len(),
            all == plain(tokens@),
            are_rust_tokens(all.subrange(0, index as int)),
            stream_trees(stream) == trees(all.subrange(0, index as int)),
        decreases tokens@.len() - index,
    {
        proof {
            lemma_next_token(all, index as int);
        }
        if !add_token(&mut stream, tokens[index]) {
            proof {
                if are_rust_tokens(all) {
                    lemma_all_tokens(all, index + 1);
                }
            }
            return None;
        }
        index += 1;
    }
    assert(all.subrange(0, index as int) =~= all);
    Some(stream)
}

/// A part of Rust's grammar that is made of tokens.
#[derive(Clone, Copy, Debug, PartialEq, Eq, Structural)]
pub enum Fragment {
    Visibility,
    Type,
    Expression,
}

/// Knows which tokens are fragments, and which identifiers are names.
pub trait FragmentReader {
    /// All of the tokens together are such a fragment.
    spec fn reads(&self, fragment: Fragment, tokens: Seq<Token>) -> bool;

    /// The identifier can be a name.
    spec fn names(&self, word: Seq<char>) -> bool;

    fn check(&self, fragment: Fragment, tokens: &Vec<&Token>) -> (yes: bool)
        ensures
            yes == self.reads(fragment, plain(tokens@)),
    ;

    fn check_name(&self, name: &Name) -> (yes: bool)
        ensures
            yes == self.names(name@),
    ;
}

/// The tokens are a visibility, as `syn::parse2` decides.
pub uninterp spec fn is_visibility(tokens: Seq<Tree>) -> bool;

/// The tokens are a type, as `syn::parse2` decides.
pub uninterp spec fn is_type(tokens: Seq<Tree>) -> bool;

/// The tokens are an expression, as `syn::parse2` decides.
pub uninterp spec fn is_expression(tokens: Seq<Tree>) -> bool;

/// The identifiers that cannot be names.
pub open spec fn is_keyword(word: Seq<char>) -> bool {
    ||| word == "_"@ || word == "abstract"@ || word == "as"@ || word == "async"@
    ||| word == "await"@ || word == "become"@ || word == "box"@ || word == "break"@
    ||| word == "const"@ || word == "continue"@ || word == "crate"@ || word == "do"@
    ||| word == "dyn"@ || word == "else"@ || word == "enum"@ || word == "extern"@
    ||| word == "false"@ || word == "final"@ || word == "fn"@ || word == "for"@
    ||| word == "if"@ || word == "impl"@ || word == "in"@ || word == "let"@
    ||| word == "loop"@ || word == "macro"@ || word == "match"@ || word == "mod"@
    ||| word == "move"@ || word == "mut"@ || word == "override"@ || word == "priv"@
    ||| word == "pub"@ || word == "ref"@ || word == "return"@ || word == "Self"@
    ||| word == "self"@ || word == "static"@ || word == "struct"@ || word == "super"@
    ||| word == "trait"@ || word == "true"@ || word == "try"@ || word == "type"@
    ||| word == "typeof"@ || word == "unsafe"@ || word == "unsized"@ || word == "use"@
    ||| word == "virtual"@ || word == "where"@ || word == "while"@ || word == "yield"@
}

/// `syn::parse2` for a visibility: whether the whole stream is one. The answer is
/// given a name, `is_visibility`.
#[verifier::external_body]
fn parses_as_visibility(stream: TokenStream) -> (yes: bool)
    ensures
        yes == is_visibility(stream_trees(stream)),
{
    syn::parse2::<syn::Visibility>(stream).is_ok()
}

/// `syn::parse2` for a type: whether the whole stream is one. The answer is given
/// a name, `is_type`.
#[verifier::external_body]
fn parses_as_type(stream: TokenStream) -> (yes: bool)
    ensures
        yes == is_type(stream_trees(stream)),
{
    syn::parse2::<syn::Type>(stream).is_ok()
}

/// `syn::parse2` for an expression: whether the whole stream is one. The answer is
/// given a name, `is_expression`.
#[verifier::external_body]
fn parses_as_expression(stream: TokenStream) -> (yes: bool)
    ensures
        yes == is_expression(stream_trees(stream)),
{
    syn::parse2::<syn::Expr>(stream).is_ok()
}

/// `syn::parse2` for an identifier, on a stream of one token that is one: it is
/// accepted but for the keywords and `_`.
#[verifier::external_body]
fn parses_as_name(token: &TokenTree) -> (yes: bool)
    requires
        tree_of(*token) is Ident,
    ensures
        yes == !is_keyword(tree_of(*token)->Ident_0),
{
    syn::parse2::<syn::Ident>(token.clone().into()).is_ok()
}

/// Rust's own grammar.
#[derive(Clone, Copy, Debug)]
pub struct RustReader;

impl FragmentReader for RustReader {
    open spec fn reads(&self, fragment: Fragment, tokens: Seq<Token>) -> bool {
        are_rust_tokens(tokens) && match fragment {
            Fragment::Visibility => is_visibility(trees(tokens)),
            Fragment::Type => is_type(trees(tokens)),
            Fragment::Expression => is_expression(trees(tokens)),
        }
    }

    open spec fn names(&self, word: Seq<char>) -> bool {
        !is_keyword(word)
    }

    fn check(&self, fragment: Fragment, tokens: &Vec<&Token>) -> (yes: bool) {
        match stream_of(tokens) {
            Some(stream) => match fragment {
                Fragment::Visibility => parses_as_visibility(stream),
                Fragment::Type => parses_as_type(stream),
                Fragment::Expression => parses_as_expression(stream),
            },
            None => false,
        }
    }

    fn check_name(&self, name: &Name) -> (yes: bool) {
        proof {
            use_type_invariant(name);
        }
        parses_as_name(&name.token)
    }
}

/// Tokens are told as values one by one, and a stream can hold them where it can hold
/// each.
pub proof fn law_tokens_are_told_one_by_one(tokens: Seq<Token>)
    ensures
        trees(tokens).len() == tokens.len(),
        forall|i: int| 0 <= i < tokens.len() ==> #[trigger] trees(tokens)[i] == tree(tokens[i]),
        are_rust_tokens(tokens) <==> forall|i: int|
            0 <= i < tokens.len() ==> is_rust_token(#[trigger] tokens[i]),
    decreases tokens.len(),
{
    if tokens.len() > 0 {
        let fewer = tokens.subrange(0, tokens.len() - 1);
        law_tokens_are_told_one_by_one(fewer);
        assert forall|i: int| 0 <= i < tokens.len() implies #[trigger] trees(tokens)[i] == tree(
            tokens[i],
        ) by {
            if i < fewer.len() {
                assert(trees(fewer)[i] == tree(fewer[i]));
                assert(fewer[i] == tokens[i]);
            }
        }
        if forall|i: int| 0 <= i < tokens.len() ==> is_rust_token(#[trigger] tokens[i]) {
            assert forall|i: int| 0 <= i < fewer.len() implies is_rust_token(
                #[trigger] fewer[i],
            ) by {
                assert(fewer[i] == tokens[i]);
            }
            assert(is_rust_token(tokens[tokens.len() - 1]));
        }
        if are_rust_tokens(tokens) {
            assert forall|i: int| 0 <= i < tokens.len() implies is_rust_token(
                #[trigger] tokens[i],
            ) by {
                if i < fewer.len() {
                    assert(is_rust_token(fewer[i]));
                    assert(fewer[i] == tokens[i]);
                }
            }
        }
    }
}

/// A stream is read token by token: each identifier and literal with its text, each mark
/// with its spacing, and each group with its delimiter and what it holds.
pub proof fn law_stream_is_read_token_by_token(stream: TokenStream, tokens: Vec<Token>, i: int)
    requires
        call_ensures(read_tokens, (stream,), tokens),
        0 <= i < stream_trees(stream).len(),
    ensures
        tokens@.len() == stream_trees(stream).len(),
        match stream_trees(stream)[i] {
            Tree::Ident(text) => tokens@[i] is Ident && tokens@[i]->Ident_0@ == text,
            Tree::Mark { mark, joint } => tokens@[i] is Punct && tokens@[i]->mark == mark
                && tokens@[i]->joint == joint,
            Tree::Literal(text) => tokens@[i] is Literal && tokens@[i]->Literal_0@ == text,
            Tree::Group(delimiter, within) => tokens@[i] is Group && tokens@[i]->Group_0
                == delimiter && trees(tokens@[i]->Group_1@) == within,
        },
{
    law_tokens_are_told_one_by_one(tokens@);
    assert(trees(tokens@)[i] == tree(tokens@[i]));
}

/// Rust's grammar reads a fragment where a stream can hold the tokens and they parse as
/// that fragment, and takes any identifier for a name but the keywords.
pub proof fn law_rust_reads_its_own_grammar(
    fragment: Fragment,
    tokens: Vec<&Token>,
    yes: bool,
    name: Name,
    is_name: bool,
)
    requires
        call_ensures(RustReader::check, (&RustReader, fragment, &tokens), yes),
        call_ensures(RustReader::check_name, (&RustReader, &name), is_name),
    ensures
        fragment is Visibility ==> (yes <==> are_rust_tokens(plain(tokens@)) && is_visibility(
            trees(plain(tokens@)),
        )),
        fragment is Type ==> (yes <==> are_rust_tokens(plain(tokens@)) && is_type(
            trees(plain(tokens@)),
        )),
        fragment is Expression ==> (yes <==> are_rust_tokens(plain(tokens@)) && is_expression(
            trees(plain(tokens@)),
        )),
        is_name <==> !is_keyword(name@),
{
}

/// A stream can hold every identifier, the marks that Rust has and no others, every literal
/// but a number that begins with a minus sign, and the groups of which it can hold each
/// token.
pub proof fn law_stream_holds_what_rust_has(token: Token)
    ensures
        token is Ident ==> is_rust_token(token),
        token is Punct ==> (is_rust_token(token) <==> seq![
            '!',
            '#',
            '$',
            '%',
            '&',
            '\'',
            '*',
            '+',
            ',',
            '-',
            '.',
            '/',
            ':',
            ';',
            '<',
            '=',
            '>',
            '?',
            '@',
            '^',
            '|',
            '~',
        ].contains(token->mark)),
        token is Literal ==> (is_rust_token(token) <==> !(token->Literal_0@.len() > 0
            && token->Literal_0@[0] == '-')),
        token is Group ==> (is_rust_token(token) <==> forall|i: int|
            0 <= i < token->Group_1@.len() ==> is_rust_token(#[trigger] token->Group_1@[i])),
{
    if token is Group {
        law_tokens_are_told_one_by_one(token->Group_1@);
    }
    if token is Punct {
        let marks = seq![
            '!',
            '#',
            '$',
            '%',
            '&',
            '\'',
            '*',
            '+',
            ',',
            '-',
            '.',
            '/',
            ':',
            ';',
            '<',
            '=',
            '>',
            '?',
            '@',
            '^',
            '|',
            '~',
        ];
        if is_rust_mark(token->mark) {
            assert(marks[0] == token->mark || marks[1] == token->mark || marks[2] == token->mark
                || marks[3] == token->mark || marks[4] == token->mark || marks[5] == token->mark
                || marks[6] == token->mark || marks[7] == token->mark || marks[8] == token->mark
                || marks[9] == token->mark || marks[10] == token->mark || marks[11] == token->mark
                || marks[12] == token->mark || marks[13] == token->mark || marks[14]
                == token->mark || marks[15] == token->mark || marks[16] == token->mark || marks[17]
                == token->mark || marks[18] == token->mark || marks[19] == token->mark || marks[20]
                == token->mark || marks[21] == token->mark);
        }
    }
}

} // verus!
