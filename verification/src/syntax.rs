//! The declaration of a pipeline: a struct whose body names the types, the
//! configuration, the stages, and the edges of a graph.
//!
//! Places count the visible tokens of a scope: an invisible group counts for the
//! tokens in it, and any other group once.
use crate::expansion::{Edge, Endpoint};
use crate::feed;
use crate::feed::{count_tokens, Cursor, Feed};
use crate::search;
use crate::text;
use crate::tokens;
use crate::tokens::{read_tokens, Delimiter, Fragment, FragmentReader, RustReader, Token};
use proc_macro2::TokenStream;
use vstd::prelude::*;
use vstd::string::*;

verus! {

/// Where in a declaration a token stands: at the top, in the struct's body, in a
/// group of the body, or in a list inside of that.
#[derive(Clone, Copy, Debug, PartialEq, Eq, Structural)]
pub enum Scope {
    Whole,
    Body,
    Part { part: usize },
    List { part: usize, list: usize },
}

/// What a declaration lacks.
#[derive(Clone, Copy, Debug, PartialEq, Eq, Structural)]
pub enum Wanted {
    StructWord,
    Name,
    NameNotKeyword,
    Mark { mark: char },
    Arrow,
    Braces,
    Brackets,
    TypeFragment,
    ExpressionFragment,
    KnownType,
    KnownAssignment,
    InputType,
    OutputType,
    ErrorType,
    Config,
    Stages,
    Nothing,
}

/// What is wrong with a declaration, and before which token of the scope.
#[derive(Clone, Copy, Debug, PartialEq, Eq, Structural)]
pub struct SyntaxFault {
    pub scope: Scope,
    pub at: usize,
    pub at_end: bool,
    pub wanted: Wanted,
}

/// What was expected, in words. `found` is the text of the token in its place.
pub open spec fn wanted_text(wanted: Wanted, found: Seq<char>) -> Seq<char> {
    match wanted {
        Wanted::StructWord => "expected `struct`"@,
        Wanted::Name => "expected identifier"@,
        Wanted::NameNotKeyword => "expected identifier, found keyword `"@ + found + "`"@,
        Wanted::Mark { mark } => "expected `"@ + seq![mark] + "`"@,
        Wanted::Arrow => "expected `->`"@,
        Wanted::Braces => "expected curly braces"@,
        Wanted::Brackets => "expected square brackets"@,
        Wanted::TypeFragment => "expected type"@,
        Wanted::ExpressionFragment => "expected expression"@,
        Wanted::KnownType => "expected Input, Output, or Error"@,
        Wanted::KnownAssignment => "expected config, stages, or graph assignment"@,
        Wanted::InputType => "missing `type Input = ...;`"@,
        Wanted::OutputType => "missing `type Output = ...;`"@,
        Wanted::ErrorType => "missing `type Error = ...;`"@,
        Wanted::Config => "missing `config = ...;`"@,
        Wanted::Stages => "missing `stages = ...;`"@,
        Wanted::Nothing => "unexpected token"@,
    }
}

/// The expectation is worded differently at the end of the tokens.
pub open spec fn tells_the_end(wanted: Wanted) -> bool {
    wanted is StructWord || wanted is Name || wanted is Braces || wanted is Brackets
}

impl SyntaxFault {
    /// The fault in words. `found` is the text of the token in its place.
    pub fn message(self, found: &str) -> (text: String)
        ensures
            text@ == if self.at_end && tells_the_end(self.wanted) {
                "unexpected end of input, "@ + wanted_text(self.wanted, found@)
            } else {
                wanted_text(self.wanted, found@)
            },
    {
        let words: String = match self.wanted {
            Wanted::StructWord => "expected `struct`".to_string(),
            Wanted::Name => "expected identifier".to_string(),
            Wanted::NameNotKeyword => {
                text::enclose("expected identifier, found keyword `", found, "`")
            },
            Wanted::Mark { mark } => {
                let mut words = "expected `".to_string();
                words.push(mark);
                words.append("`");
                assert(words@ =~= "expected `"@ + seq![mark] + "`"@);
                words
            },
            Wanted::Arrow => "expected `->`".to_string(),
            Wanted::Braces => "expected curly braces".to_string(),
            Wanted::Brackets => "expected square brackets".to_string(),
            Wanted::TypeFragment => "expected type".to_string(),
            Wanted::ExpressionFragment => "expected expression".to_string(),
            Wanted::KnownType => "expected Input, Output, or Error".to_string(),
            Wanted::KnownAssignment => {
                "expected config, stages, or graph assignment".to_string()
            },
            Wanted::InputType => "missing `type Input = ...;`".to_string(),
            Wanted::OutputType => "missing `type Output = ...;`".to_string(),
            Wanted::ErrorType => "missing `type Error = ...;`".to_string(),
            Wanted::Config => "missing `config = ...;`".to_string(),
            Wanted::Stages => "missing `stages = ...;`".to_string(),
            Wanted::Nothing => "unexpected token".to_string(),
        };
        let tells: bool = matches!(
            self.wanted,
            Wanted::StructWord | Wanted::Name | Wanted::Braces | Wanted::Brackets
        );
        if self.at_end && tells {
            let mut whole = "unexpected end of input, ".to_string();
            whole.append(words.as_str());
            whole
        } else {
            words
        }
    }
}

/// The tokens from one place of a scope up to another. An invisible group that
/// lies in it as a whole is part of it.
#[derive(Clone, Copy, Debug, PartialEq, Eq, Structural)]
pub struct Run {
    pub start: usize,
    pub end: usize,
}

/// A stage with a name.
#[derive(Debug)]
pub struct NamedStage {
    pub name: String,
    pub name_at: usize,
    pub expr: Run,
}

/// The stages of a declaration; `part` is the place of their group in the body.
#[derive(Debug)]
pub enum StageDecls {
    Linear { part: usize, exprs: Vec<Run> },
    Named { part: usize, stages: Vec<NamedStage> },
}

/// A declaration that was read. The runs of the types and of the configuration
/// are in the body, which is the group at `body_at`.
#[derive(Debug)]
pub struct PipelineInput {
    pub visibility: Run,
    pub name_at: usize,
    pub body_at: usize,
    pub input: Run,
    pub output: Run,
    pub error: Run,
    pub config: Run,
    pub stages: StageDecls,
    pub graph: Option<Vec<Edge>>,
}

/// An endpoint as a value.
pub enum EndpointModel {
    Input,
    Output,
    Stage(Seq<char>),
}

/// An edge as a value.
pub struct EdgeModel {
    pub from: Seq<EndpointModel>,
    pub to: Seq<EndpointModel>,
}

/// A named stage as a value.
pub struct StageModel {
    pub name: Seq<char>,
    pub name_at: usize,
    pub expr: Run,
}

/// The stages of a declaration as a value.
pub enum StagesModel {
    Linear { part: usize, exprs: Seq<Run> },
    Named { part: usize, stages: Seq<StageModel> },
}

/// The parts of a body as far as they were read.
pub struct BodyModel {
    pub input: Option<Run>,
    pub output: Option<Run>,
    pub error: Option<Run>,
    pub config: Option<Run>,
    pub stages: Option<StagesModel>,
    pub graph: Option<Seq<EdgeModel>>,
}

pub open spec fn endpoint_model(endpoint: Endpoint) -> EndpointModel {
    match endpoint {
        Endpoint::Input => EndpointModel::Input,
        Endpoint::Output => EndpointModel::Output,
        Endpoint::Stage(name) => EndpointModel::Stage(name@),
    }
}

pub open spec fn endpoint_models(endpoints: Seq<Endpoint>) -> Seq<EndpointModel> {
    Seq::new(endpoints.len(), |i: int| endpoint_model(endpoints[i]))
}

pub open spec fn edge_model(edge: Edge) -> EdgeModel {
    EdgeModel { from: endpoint_models(edge.from@), to: endpoint_models(edge.to@) }
}

pub open spec fn edge_models(edges: Seq<Edge>) -> Seq<EdgeModel> {
    Seq::new(edges.len(), |i: int| edge_model(edges[i]))
}

pub open spec fn stage_model(stage: NamedStage) -> StageModel {
    StageModel { name: stage.name@, name_at: stage.name_at, expr: stage.expr }
}

pub open spec fn stage_models(stages: Seq<NamedStage>) -> Seq<StageModel> {
    Seq::new(stages.len(), |i: int| stage_model(stages[i]))
}

pub open spec fn stages_model(stages: StageDecls) -> StagesModel {
    match stages {
        StageDecls::Linear { part, exprs } => StagesModel::Linear { part, exprs: exprs@ },
        StageDecls::Named { part, stages } => StagesModel::Named {
            part,
            stages: stage_models(stages@),
        },
    }
}

pub open spec fn graph_model(graph: Option<Vec<Edge>>) -> Option<Seq<EdgeModel>> {
    match graph {
        Some(edges) => Some(edge_models(edges@)),
        None => None,
    }
}

/// A fault where the cursor stands.
pub open spec fn fault(scope: Scope, cursor: Cursor, wanted: Wanted) -> SyntaxFault {
    SyntaxFault { scope, at: cursor.place(), at_end: cursor.rest.len() == 0, wanted }
}

/// The word that comes next, if one does.
pub open spec fn next_word(cursor: Cursor) -> Option<Seq<char>> {
    match cursor.head() {
        Some(Token::Ident(word)) => Some(word@),
        _ => None,
    }
}

/// The mark comes next.
pub open spec fn is_mark(cursor: Cursor, mark: char) -> bool {
    cursor.head() matches Some(token) && (token matches Token::Punct { mark: own, .. } && own
        == mark)
}

/// The mark comes next and is joint to the token behind it.
pub open spec fn is_joint_mark(cursor: Cursor, mark: char) -> bool {
    cursor.head() matches Some(token) && (token matches Token::Punct { mark: own, joint } && own
        == mark && joint)
}

/// A group of the delimiter comes next.
pub open spec fn is_group(cursor: Cursor, delimiter: Delimiter) -> bool {
    cursor.head() matches Some(token) && (token matches Token::Group(own, _) && own == delimiter)
}

/// The tokens of the group that comes next.
pub open spec fn inner(cursor: Cursor) -> Seq<Token> {
    cursor.head()->0->Group_1@
}

/// A mark, and the cursor behind it.
pub open spec fn mark_step(cursor: Cursor, scope: Scope, mark: char) -> Result<
    Cursor,
    SyntaxFault,
> {
    if is_mark(cursor, mark) {
        Ok(cursor.past())
    } else {
        Err(fault(scope, cursor, Wanted::Mark { mark }))
    }
}

/// The arrow of an edge, and the cursor behind it.
pub open spec fn arrow_step(cursor: Cursor, scope: Scope) -> Result<Cursor, SyntaxFault> {
    if is_joint_mark(cursor, '-') && is_mark(cursor.past(), '>') {
        Ok(cursor.past().past())
    } else {
        Err(fault(scope, cursor, Wanted::Arrow))
    }
}

/// A name, and the cursor behind it.
pub open spec fn name_step<R: FragmentReader>(reader: R, cursor: Cursor, scope: Scope) -> Result<
    Cursor,
    SyntaxFault,
> {
    match next_word(cursor) {
        Some(word) => if reader.names(word) {
            Ok(cursor.past())
        } else {
            Err(fault(scope, cursor, Wanted::NameNotKeyword))
        },
        None => Err(fault(scope, cursor, Wanted::Name)),
    }
}

/// A group in braces, and the cursor behind it.
pub open spec fn braces_step(cursor: Cursor, scope: Scope) -> Result<Cursor, SyntaxFault> {
    if is_group(cursor, Delimiter::Brace) {
        Ok(cursor.past())
    } else {
        Err(fault(scope, cursor, Wanted::Braces))
    }
}

/// The first `p` tokens are a fragment, and a separator or the end follows.
pub open spec fn ends_fragment<R: FragmentReader>(
    reader: R,
    fragment: Fragment,
    stop: char,
    cursor: Cursor,
) -> spec_fn(int) -> bool {
    |p: int|
        (p == cursor.rest.len() || is_mark(cursor.skipped(p), stop)) && reader.reads(
            fragment,
            cursor.rest.take(p),
        )
}

/// A fragment, and the cursor behind it: before the first separator, or at the
/// end, before which a fragment stands.
pub open spec fn fragment_step<R: FragmentReader>(
    reader: R,
    fragment: Fragment,
    stop: char,
    cursor: Cursor,
    scope: Scope,
) -> Result<Cursor, SyntaxFault> {
    match search::first_where(
        ends_fragment(reader, fragment, stop, cursor),
        0,
        cursor.rest.len() as int + 1,
    ) {
        Some(end) => Ok(cursor.skipped(end)),
        None => Err(
            fault(
                scope,
                cursor,
                if fragment == Fragment::Type {
                    Wanted::TypeFragment
                } else {
                    Wanted::ExpressionFragment
                },
            ),
        ),
    }
}

fn fault_at(scope: Scope, feed: &Feed, wanted: Wanted) -> (made: SyntaxFault)
    requires
        feed.is_sound(),
    ensures
        made == fault(scope, feed.cursor(), wanted),
{
    SyntaxFault { scope, at: feed.place(), at_end: feed.left() == 0, wanted }
}

fn holds_mark(token: Option<&Token>, mark: char) -> (yes: bool)
    ensures
        yes == (token matches Some(token) && (*token matches Token::Punct { mark: own, .. } && own
            == mark)),
{
    match token {
        Some(Token::Punct { mark: own, .. }) => *own == mark,
        _ => false,
    }
}

fn has_mark(feed: &Feed, mark: char) -> (yes: bool)
    requires
        feed.is_sound(),
    ensures
        yes == is_mark(feed.cursor(), mark),
{
    holds_mark(feed.peek(), mark)
}

fn has_joint_mark(feed: &Feed, mark: char) -> (yes: bool)
    requires
        feed.is_sound(),
    ensures
        yes == is_joint_mark(feed.cursor(), mark),
{
    match feed.peek() {
        Some(Token::Punct { mark: own, joint }) => *own == mark && *joint,
        _ => false,
    }
}

/// The tokens of the group that comes next, if it has the delimiter.
fn peek_group<'a>(feed: &Feed<'a>, delimiter: Delimiter) -> (found: Option<&'a Vec<Token>>)
    requires
        feed.is_sound(),
    ensures
        found is Some <==> is_group(feed.cursor(), delimiter),
        found matches Some(found) ==> found@ == inner(feed.cursor()),
{
    match feed.peek() {
        Some(Token::Group(own, found)) => if *own == delimiter {
            Some(found)
        } else {
            None
        },
        _ => None,
    }
}

/// What was read is what was meant: the feed stands at the cursor.
pub open spec fn same_step(
    read: Result<(), SyntaxFault>,
    feed: Feed,
    meant: Result<Cursor, SyntaxFault>,
) -> bool {
    match meant {
        Ok(cursor) => read is Ok && feed.is_sound() && feed.cursor() == cursor,
        Err(wrong) => read is Err && read->Err_0 == wrong,
    }
}

fn read_mark(feed: &mut Feed, scope: Scope, mark: char) -> (read: Result<(), SyntaxFault>)
    requires
        old(feed).is_sound(),
    ensures
        same_step(read, *final(feed), mark_step(old(feed).cursor(), scope, mark)),
{
    if has_mark(feed, mark) {
        feed.pass();
        Ok(())
    } else {
        Err(fault_at(scope, feed, Wanted::Mark { mark }))
    }
}

fn read_arrow(feed: &mut Feed, scope: Scope) -> (read: Result<(), SyntaxFault>)
    requires
        old(feed).is_sound(),
    ensures
        same_step(read, *final(feed), arrow_step(old(feed).cursor(), scope)),
{
    let missing: SyntaxFault = fault_at(scope, feed, Wanted::Arrow);
    if has_joint_mark(feed, '-') {
        feed.pass();
        if has_mark(feed, '>') {
            feed.pass();
            return Ok(());
        }
    }
    Err(missing)
}

fn read_name<R: FragmentReader>(reader: &R, feed: &mut Feed, scope: Scope) -> (name: Result<
    String,
    SyntaxFault,
>)
    requires
        old(feed).is_sound(),
    ensures
        match name_step(*reader, old(feed).cursor(), scope) {
            Ok(cursor) => name is Ok && next_word(old(feed).cursor()) == Some(name->Ok_0@)
                && final(feed).is_sound() && final(feed).cursor() == cursor,
            Err(wrong) => name is Err && name->Err_0 == wrong,
        },
{
    if let Some(Token::Ident(word)) = feed.peek() {
        if reader.check_name(word) {
            feed.pass();
            Ok(word.text().clone())
        } else {
            Err(fault_at(scope, feed, Wanted::NameNotKeyword))
        }
    } else {
        Err(fault_at(scope, feed, Wanted::Name))
    }
}

fn read_fragment<R: FragmentReader>(
    reader: &R,
    fragment: Fragment,
    stop: char,
    feed: &mut Feed,
    scope: Scope,
) -> (read: Result<(), SyntaxFault>)
    requires
        old(feed).is_sound(),
    ensures
        same_step(
            read,
            *final(feed),
            fragment_step(*reader, fragment, stop, old(feed).cursor(), scope),
        ),
{
    let count: usize = feed.left();
    let ghost cursor = feed.cursor();
    let ghost p = ends_fragment(*reader, fragment, stop, cursor);
    let mut end: usize = 0;
    while end < count
        invariant
            end <= count,
            feed.is_sound(),
            feed.cursor() == cursor,
            cursor == old(feed).cursor(),
            count == cursor.rest.len(),
            p == ends_fragment(*reader, fragment, stop, cursor),
            search::first_where(p, 0, count + 1) == search::first_where(p, end as int, count + 1),
        decreases count - end,
    {
        if holds_mark(feed.look(end), stop) && reader.check(fragment, &feed.run(end)) {
            feed.skip(end);
            return Ok(());
        }
        end += 1;
    }
    if reader.check(fragment, &feed.run(count)) {
        feed.skip(count);
        return Ok(());
    }
    assert(search::first_where(p, count + 1, count + 1) is None);
    Err(
        fault_at(
            scope,
            feed,
            if fragment == Fragment::Type {
                Wanted::TypeFragment
            } else {
                Wanted::ExpressionFragment
            },
        ),
    )
}

/// Whether a word is the given one.
fn is_word(word: &String, given: &str) -> (yes: bool)
    ensures
        yes == (word@ == given@),
{
    *word == given.to_string()
}

/// The endpoint that a word means.
pub open spec fn endpoint_of(word: Seq<char>) -> EndpointModel {
    if word == "input"@ {
        EndpointModel::Input
    } else if word == "output"@ {
        EndpointModel::Output
    } else {
        EndpointModel::Stage(word)
    }
}

fn to_endpoint(word: String) -> (endpoint: Endpoint)
    ensures
        endpoint_model(endpoint) == endpoint_of(word@),
{
    if is_word(&word, "input") {
        Endpoint::Input
    } else if is_word(&word, "output") {
        Endpoint::Output
    } else {
        Endpoint::Stage(word)
    }
}

/// Visible tokens are left fewer than before.
pub open spec fn goes_on(before: Cursor, after: Cursor) -> bool {
    feed::width(after.rest) < feed::width(before.rest)
}

/// The endpoints that are left, separated by commas, behind those in `done`.
pub open spec fn endpoint_list<R: FragmentReader>(
    reader: R,
    cursor: Cursor,
    scope: Scope,
    done: Seq<EndpointModel>,
) -> Result<Seq<EndpointModel>, SyntaxFault>
    decreases feed::width(cursor.rest),
{
    if cursor.rest.len() == 0 {
        Ok(done)
    } else {
        match name_step(reader, cursor, scope) {
            Err(wrong) => Err(wrong),
            Ok(named) => {
                let more = done.push(endpoint_of(next_word(cursor)->0));
                if named.rest.len() == 0 {
                    Ok(more)
                } else {
                    match mark_step(named, scope, ',') {
                        Err(wrong) => Err(wrong),
                        Ok(next) => if goes_on(cursor, next) {
                            endpoint_list(reader, next, scope, more)
                        } else {
                            Ok(more)
                        },
                    }
                }
            },
        }
    }
}

fn read_endpoint_list<R: FragmentReader>(reader: &R, tokens: &Vec<Token>, scope: Scope) -> (read:
    Result<Vec<Endpoint>, SyntaxFault>)
    ensures
        match endpoint_list(*reader, feed::before(tokens@), scope, Seq::empty()) {
            Ok(list) => read is Ok && endpoint_models(read->Ok_0@) == list,
            Err(wrong) => read is Err && read->Err_0 == wrong,
        },
{
    let mut list: Vec<Endpoint> = Vec::new();
    let mut feed: Feed = Feed::new(tokens);
    assert(endpoint_models(list@) =~= Seq::empty());
    while feed.left() > 0
        invariant
            feed.is_sound(),
            endpoint_list(*reader, feed::before(tokens@), scope, Seq::empty()) == endpoint_list(
                *reader,
                feed.cursor(),
                scope,
                endpoint_models(list@),
            ),
        decreases feed::width(feed.cursor().rest),
    {
        let ghost before = list@;
        let ghost cursor = feed.cursor();
        let word: String = match read_name(reader, &mut feed, scope) {
            Ok(word) => word,
            Err(wrong) => return Err(wrong),
        };
        let ghost named = feed.cursor();
        proof {
            feed::lemma_past(cursor);
        }
        list.push(to_endpoint(word));
        assert(endpoint_models(list@) =~= endpoint_models(before).push(
            endpoint_of(next_word(cursor)->0),
        ));
        if feed.left() == 0 {
            return Ok(list);
        }
        match read_mark(&mut feed, scope, ',') {
            Ok(_) => {},
            Err(wrong) => return Err(wrong),
        }
        proof {
            feed::lemma_past(named);
        }
    }
    Ok(list)
}

/// One side of an edge, and the cursor behind it: a list in brackets, or a name.
pub open spec fn side_step<R: FragmentReader>(reader: R, cursor: Cursor, part: usize) -> Result<
    (Seq<EndpointModel>, Cursor),
    SyntaxFault,
> {
    if is_group(cursor, Delimiter::Bracket) {
        match endpoint_list(
            reader,
            feed::before(inner(cursor)),
            Scope::List { part, list: cursor.place() },
            Seq::empty(),
        ) {
            Ok(list) => Ok((list, cursor.past())),
            Err(wrong) => Err(wrong),
        }
    } else {
        match name_step(reader, cursor, Scope::Part { part }) {
            Ok(next) => Ok((seq![endpoint_of(next_word(cursor)->0)], next)),
            Err(wrong) => Err(wrong),
        }
    }
}

fn read_side<R: FragmentReader>(reader: &R, feed: &mut Feed, part: usize) -> (read: Result<
    Vec<Endpoint>,
    SyntaxFault,
>)
    requires
        old(feed).is_sound(),
    ensures
        match side_step(*reader, old(feed).cursor(), part) {
            Ok((list, next)) => read is Ok && endpoint_models(read->Ok_0@) == list && final(feed).is_sound() && final(feed).cursor() == next && goes_on(old(feed).cursor(), next),
            Err(wrong) => read is Err && read->Err_0 == wrong,
        },
{
    let ghost cursor = feed.cursor();
    if let Some(tokens) = peek_group(feed, Delimiter::Bracket) {
        let list: Vec<Endpoint> = match read_endpoint_list(
            reader,
            tokens,
            Scope::List { part, list: feed.place() },
        ) {
            Ok(list) => list,
            Err(wrong) => return Err(wrong),
        };
        feed.pass();
        proof {
            feed::lemma_past(cursor);
        }
        Ok(list)
    } else {
        match read_name(reader, feed, Scope::Part { part }) {
            Ok(word) => {
                let mut list: Vec<Endpoint> = Vec::new();
                list.push(to_endpoint(word));
                assert(endpoint_models(list@) =~= seq![endpoint_of(next_word(cursor)->0)]);
                proof {
                    feed::lemma_past(cursor);
                }
                Ok(list)
            },
            Err(wrong) => Err(wrong),
        }
    }
}

/// An edge, and the cursor behind it.
pub open spec fn edge_step<R: FragmentReader>(reader: R, cursor: Cursor, part: usize) -> Result<
    (EdgeModel, Cursor),
    SyntaxFault,
> {
    match side_step(reader, cursor, part) {
        Err(wrong) => Err(wrong),
        Ok((from, after_from)) => match arrow_step(after_from, Scope::Part { part }) {
            Err(wrong) => Err(wrong),
            Ok(after_arrow) => match side_step(reader, after_arrow, part) {
                Err(wrong) => Err(wrong),
                Ok((to, end)) => Ok((EdgeModel { from, to }, end)),
            },
        },
    }
}

fn read_edge<R: FragmentReader>(reader: &R, feed: &mut Feed, part: usize) -> (read: Result<
    Edge,
    SyntaxFault,
>)
    requires
        old(feed).is_sound(),
    ensures
        match edge_step(*reader, old(feed).cursor(), part) {
            Ok((edge, next)) => read is Ok && edge_model(read->Ok_0) == edge && final(feed).is_sound() && final(feed).cursor() == next && goes_on(old(feed).cursor(), next),
            Err(wrong) => read is Err && read->Err_0 == wrong,
        },
{
    let from: Vec<Endpoint> = match read_side(reader, feed, part) {
        Ok(from) => from,
        Err(wrong) => return Err(wrong),
    };
    let ghost middle = feed.cursor();
    match read_arrow(feed, Scope::Part { part }) {
        Ok(_) => {},
        Err(wrong) => return Err(wrong),
    }
    proof {
        feed::lemma_past(middle);
        feed::lemma_past(middle.past());
    }
    let to: Vec<Endpoint> = match read_side(reader, feed, part) {
        Ok(to) => to,
        Err(wrong) => return Err(wrong),
    };
    Ok(Edge { from, to })
}

/// The edges that are left, separated by semicolons, behind those in `done`.
pub open spec fn edge_list<R: FragmentReader>(
    reader: R,
    cursor: Cursor,
    part: usize,
    done: Seq<EdgeModel>,
) -> Result<Seq<EdgeModel>, SyntaxFault>
    decreases feed::width(cursor.rest),
{
    if cursor.rest.len() == 0 {
        Ok(done)
    } else {
        match edge_step(reader, cursor, part) {
            Err(wrong) => Err(wrong),
            Ok((edge, end)) => {
                let more = done.push(edge);
                if end.rest.len() == 0 {
                    Ok(more)
                } else {
                    match mark_step(end, Scope::Part { part }, ';') {
                        Err(wrong) => Err(wrong),
                        Ok(next) => if goes_on(cursor, next) {
                            edge_list(reader, next, part, more)
                        } else {
                            Ok(more)
                        },
                    }
                }
            },
        }
    }
}

fn read_edges<R: FragmentReader>(reader: &R, tokens: &Vec<Token>, part: usize) -> (read: Result<
    Vec<Edge>,
    SyntaxFault,
>)
    ensures
        match edge_list(*reader, feed::before(tokens@), part, Seq::empty()) {
            Ok(list) => read is Ok && edge_models(read->Ok_0@) == list,
            Err(wrong) => read is Err && read->Err_0 == wrong,
        },
{
    let mut list: Vec<Edge> = Vec::new();
    let mut feed: Feed = Feed::new(tokens);
    assert(edge_models(list@) =~= Seq::empty());
    while feed.left() > 0
        invariant
            feed.is_sound(),
            edge_list(*reader, feed::before(tokens@), part, Seq::empty()) == edge_list(
                *reader,
                feed.cursor(),
                part,
                edge_models(list@),
            ),
        decreases feed::width(feed.cursor().rest),
    {
        let ghost before = list@;
        let edge: Edge = match read_edge(reader, &mut feed, part) {
            Ok(edge) => edge,
            Err(wrong) => return Err(wrong),
        };
        let ghost end = feed.cursor();
        list.push(edge);
        assert(edge_models(list@) =~= edge_models(before).push(edge_model(edge)));
        if feed.left() == 0 {
            return Ok(list);
        }
        match read_mark(&mut feed, Scope::Part { part }, ';') {
            Ok(_) => {},
            Err(wrong) => return Err(wrong),
        }
        proof {
            feed::lemma_past(end);
        }
    }
    Ok(list)
}

/// The places between two cursors.
pub open spec fn between(start: Cursor, end: Cursor) -> Run {
    Run { start: start.place(), end: end.place() }
}

/// The expressions that are left, separated by commas, behind those in `done`.
pub open spec fn expr_list<R: FragmentReader>(
    reader: R,
    cursor: Cursor,
    part: usize,
    done: Seq<Run>,
) -> Result<Seq<Run>, SyntaxFault>
    decreases feed::width(cursor.rest),
{
    if cursor.rest.len() == 0 {
        Ok(done)
    } else {
        match fragment_step(reader, Fragment::Expression, ',', cursor, Scope::Part { part }) {
            Err(wrong) => Err(wrong),
            Ok(end) => {
                let more = done.push(between(cursor, end));
                if end.rest.len() == 0 || !goes_on(cursor, end.past()) {
                    Ok(more)
                } else {
                    expr_list(reader, end.past(), part, more)
                }
            },
        }
    }
}

/// A fragment ends at the end or before its separator, and the visible tokens
/// behind it are those that it does not hold.
proof fn lemma_fragment<R: FragmentReader>(
    reader: R,
    fragment: Fragment,
    stop: char,
    cursor: Cursor,
    scope: Scope,
)
    ensures
        fragment_step(reader, fragment, stop, cursor, scope) matches Ok(end) ==> {
            &&& end.rest.len() == 0 || is_mark(end, stop)
            &&& end.at + feed::width(end.rest) == cursor.at + feed::width(cursor.rest)
            &&& cursor.at <= end.at
            &&& end.rest.len() > 0 ==> goes_on(cursor, end.past())
        },
{
    let p = ends_fragment(reader, fragment, stop, cursor);
    let count = cursor.rest.len() as int;
    search::lemma_first_where_holds(p, 0, count + 1);
    if let Some(end) = search::first_where(p, 0, count + 1) {
        feed::lemma_skipped(cursor, end);
        if end < count {
            feed::lemma_past(cursor.skipped(end));
        }
    }
}

fn read_exprs<R: FragmentReader>(reader: &R, tokens: &Vec<Token>, part: usize) -> (read: Result<
    Vec<Run>,
    SyntaxFault,
>)
    ensures
        match expr_list(*reader, feed::before(tokens@), part, Seq::empty()) {
            Ok(list) => read is Ok && read->Ok_0@ == list,
            Err(wrong) => read is Err && read->Err_0 == wrong,
        },
{
    let mut list: Vec<Run> = Vec::new();
    let mut feed: Feed = Feed::new(tokens);
    while feed.left() > 0
        invariant
            feed.is_sound(),
            expr_list(*reader, feed::before(tokens@), part, Seq::empty()) == expr_list(
                *reader,
                feed.cursor(),
                part,
                list@,
            ),
        decreases feed::width(feed.cursor().rest),
    {
        proof {
            lemma_fragment(
                *reader,
                Fragment::Expression,
                ',',
                feed.cursor(),
                Scope::Part { part },
            );
        }
        let start: usize = feed.place();
        match read_fragment(
            reader,
            Fragment::Expression,
            ',',
            &mut feed,
            Scope::Part { part },
        ) {
            Ok(_) => {},
            Err(wrong) => return Err(wrong),
        }
        list.push(Run { start, end: feed.place() });
        if feed.left() == 0 {
            return Ok(list);
        }
        feed.pass();
    }
    Ok(list)
}

/// A named stage, and the cursor behind it.
pub open spec fn stage_step<R: FragmentReader>(reader: R, cursor: Cursor, part: usize) -> Result<
    (StageModel, Cursor),
    SyntaxFault,
> {
    let scope = Scope::Part { part };
    match name_step(reader, cursor, scope) {
        Err(wrong) => Err(wrong),
        Ok(named) => match mark_step(named, scope, '=') {
            Err(wrong) => Err(wrong),
            Ok(start) => match fragment_step(reader, Fragment::Expression, ',', start, scope) {
                Err(wrong) => Err(wrong),
                Ok(end) => Ok(
                    (
                        StageModel {
                            name: next_word(cursor)->0,
                            name_at: cursor.place(),
                            expr: between(start, end),
                        },
                        end,
                    ),
                ),
            },
        },
    }
}

/// The named stages that are left, separated by commas, behind those in `done`.
pub open spec fn stage_list<R: FragmentReader>(
    reader: R,
    cursor: Cursor,
    part: usize,
    done: Seq<StageModel>,
) -> Result<Seq<StageModel>, SyntaxFault>
    decreases feed::width(cursor.rest),
{
    if cursor.rest.len() == 0 {
        Ok(done)
    } else {
        match stage_step(reader, cursor, part) {
            Err(wrong) => Err(wrong),
            Ok((stage, end)) => {
                let more = done.push(stage);
                if end.rest.len() == 0 || !goes_on(cursor, end.past()) {
                    Ok(more)
                } else {
                    stage_list(reader, end.past(), part, more)
                }
            },
        }
    }
}

fn read_stage<R: FragmentReader>(reader: &R, feed: &mut Feed, part: usize) -> (read: Result<
    NamedStage,
    SyntaxFault,
>)
    requires
        old(feed).is_sound(),
    ensures
        match stage_step(*reader, old(feed).cursor(), part) {
            Ok((stage, end)) => read is Ok && stage_model(read->Ok_0) == stage && final(feed).is_sound() && final(feed).cursor() == end && (end.rest.len() > 0 ==> end.head() is Some
                && goes_on(old(feed).cursor(), end.past())),
            Err(wrong) => read is Err && read->Err_0 == wrong,
        },
{
    let scope: Scope = Scope::Part { part };
    let name_at: usize = feed.place();
    let ghost cursor = feed.cursor();
    let name: String = match read_name(reader, feed, scope) {
        Ok(name) => name,
        Err(wrong) => return Err(wrong),
    };
    let ghost named = feed.cursor();
    match read_mark(feed, scope, '=') {
        Ok(_) => {},
        Err(wrong) => return Err(wrong),
    }
    proof {
        feed::lemma_past(cursor);
        feed::lemma_past(named);
        lemma_fragment(*reader, Fragment::Expression, ',', feed.cursor(), scope);
    }
    let start: usize = feed.place();
    match read_fragment(reader, Fragment::Expression, ',', feed, scope) {
        Ok(_) => {},
        Err(wrong) => return Err(wrong),
    }
    Ok(NamedStage { name, name_at, expr: Run { start, end: feed.place() } })
}

fn read_stages<R: FragmentReader>(reader: &R, tokens: &Vec<Token>, part: usize) -> (read: Result<
    Vec<NamedStage>,
    SyntaxFault,
>)
    ensures
        match stage_list(*reader, feed::before(tokens@), part, Seq::empty()) {
            Ok(list) => read is Ok && stage_models(read->Ok_0@) == list,
            Err(wrong) => read is Err && read->Err_0 == wrong,
        },
{
    let mut list: Vec<NamedStage> = Vec::new();
    let mut feed: Feed = Feed::new(tokens);
    assert(stage_models(list@) =~= Seq::empty());
    while feed.left() > 0
        invariant
            feed.is_sound(),
            stage_list(*reader, feed::before(tokens@), part, Seq::empty()) == stage_list(
                *reader,
                feed.cursor(),
                part,
                stage_models(list@),
            ),
        decreases feed::width(feed.cursor().rest),
    {
        let ghost before = list@;
        let stage: NamedStage = match read_stage(reader, &mut feed, part) {
            Ok(stage) => stage,
            Err(wrong) => return Err(wrong),
        };
        list.push(stage);
        assert(stage_models(list@) =~= stage_models(before).push(stage_model(stage)));
        if feed.left() == 0 {
            return Ok(list);
        }
        feed.pass();
    }
    Ok(list)
}

/// A type's line in the body: `type Name = Type;`. A later line of the same name
/// takes the place of an earlier one.
pub open spec fn type_section<R: FragmentReader>(
    reader: R,
    cursor: Cursor,
    body: BodyModel,
) -> Result<(BodyModel, Cursor), SyntaxFault> {
    let scope = Scope::Body;
    let key_at = cursor.past();
    match name_step(reader, key_at, scope) {
        Err(wrong) => Err(wrong),
        Ok(named) => match mark_step(named, scope, '=') {
            Err(wrong) => Err(wrong),
            Ok(start) => match fragment_step(reader, Fragment::Type, ';', start, scope) {
                Err(wrong) => Err(wrong),
                Ok(end) => match mark_step(end, scope, ';') {
                    Err(wrong) => Err(wrong),
                    Ok(next) => {
                        let key = next_word(key_at)->0;
                        let run = Some(between(start, end));
                        if key == "Input"@ {
                            Ok((BodyModel { input: run, ..body }, next))
                        } else if key == "Output"@ {
                            Ok((BodyModel { output: run, ..body }, next))
                        } else if key == "Error"@ {
                            Ok((BodyModel { error: run, ..body }, next))
                        } else {
                            Err(
                                SyntaxFault {
                                    scope,
                                    at: key_at.place(),
                                    at_end: false,
                                    wanted: Wanted::KnownType,
                                },
                            )
                        }
                    },
                },
            },
        },
    }
}

/// The value of `stages = ...`: expressions in brackets, or named stages in
/// braces.
pub open spec fn stages_value<R: FragmentReader>(reader: R, cursor: Cursor) -> Result<
    (StagesModel, Cursor),
    SyntaxFault,
> {
    let part = cursor.place();
    if is_group(cursor, Delimiter::Bracket) {
        match expr_list(reader, feed::before(inner(cursor)), part, Seq::empty()) {
            Ok(exprs) => Ok((StagesModel::Linear { part, exprs }, cursor.past())),
            Err(wrong) => Err(wrong),
        }
    } else {
        match braces_step(cursor, Scope::Body) {
            Err(wrong) => Err(wrong),
            Ok(next) => match stage_list(
                reader,
                feed::before(inner(cursor)),
                part,
                Seq::empty(),
            ) {
                Ok(stages) => Ok((StagesModel::Named { part, stages }, next)),
                Err(wrong) => Err(wrong),
            },
        }
    }
}

/// An assignment in the body.
pub open spec fn assignment_section<R: FragmentReader>(
    reader: R,
    cursor: Cursor,
    body: BodyModel,
) -> Result<(BodyModel, Cursor), SyntaxFault> {
    let scope = Scope::Body;
    match name_step(reader, cursor, scope) {
        Err(wrong) => Err(wrong),
        Ok(named) => match mark_step(named, scope, '=') {
            Err(wrong) => Err(wrong),
            Ok(start) => {
                let key = next_word(cursor)->0;
                if key == "config"@ {
                    match fragment_step(reader, Fragment::Expression, ';', start, scope) {
                        Err(wrong) => Err(wrong),
                        Ok(end) => match mark_step(end, scope, ';') {
                            Err(wrong) => Err(wrong),
                            Ok(next) => Ok(
                                (BodyModel { config: Some(between(start, end)), ..body }, next),
                            ),
                        },
                    }
                } else if key == "stages"@ {
                    match stages_value(reader, start) {
                        Err(wrong) => Err(wrong),
                        Ok((stages, end)) => match mark_step(end, scope, ';') {
                            Err(wrong) => Err(wrong),
                            Ok(next) => Ok((BodyModel { stages: Some(stages), ..body }, next)),
                        },
                    }
                } else if key == "graph"@ {
                    match braces_step(start, scope) {
                        Err(wrong) => Err(wrong),
                        Ok(end) => match edge_list(
                            reader,
                            feed::before(inner(start)),
                            start.place(),
                            Seq::empty(),
                        ) {
                            Err(wrong) => Err(wrong),
                            Ok(edges) => match mark_step(end, scope, ';') {
                                Err(wrong) => Err(wrong),
                                Ok(next) => Ok((BodyModel { graph: Some(edges), ..body }, next)),
                            },
                        },
                    }
                } else {
                    Err(
                        SyntaxFault {
                            scope,
                            at: cursor.place(),
                            at_end: false,
                            wanted: Wanted::KnownAssignment,
                        },
                    )
                }
            },
        },
    }
}

pub open spec fn section_step<R: FragmentReader>(
    reader: R,
    cursor: Cursor,
    body: BodyModel,
) -> Result<(BodyModel, Cursor), SyntaxFault> {
    if next_word(cursor) == Some("type"@) {
        type_section(reader, cursor, body)
    } else {
        assignment_section(reader, cursor, body)
    }
}

/// What is left of the body, added to what was read before.
pub open spec fn body_from<R: FragmentReader>(
    reader: R,
    cursor: Cursor,
    body: BodyModel,
) -> Result<BodyModel, SyntaxFault>
    decreases feed::width(cursor.rest),
{
    if cursor.rest.len() == 0 {
        Ok(body)
    } else {
        match section_step(reader, cursor, body) {
            Err(wrong) => Err(wrong),
            Ok((more, next)) => if goes_on(cursor, next) {
                body_from(reader, next, more)
            } else {
                Ok(more)
            },
        }
    }
}

/// A body of which nothing was read.
pub open spec fn empty_body() -> BodyModel {
    BodyModel { input: None, output: None, error: None, config: None, stages: None, graph: None }
}

/// The parts of a body as far as they were read.
struct Sections {
    input: Option<Run>,
    output: Option<Run>,
    error: Option<Run>,
    config: Option<Run>,
    stages: Option<StageDecls>,
    graph: Option<Vec<Edge>>,
}

impl Sections {
    spec fn model(self) -> BodyModel {
        BodyModel {
            input: self.input,
            output: self.output,
            error: self.error,
            config: self.config,
            stages: match self.stages {
                Some(stages) => Some(stages_model(stages)),
                None => None,
            },
            graph: graph_model(self.graph),
        }
    }
}

fn read_type_section<R: FragmentReader>(reader: &R, feed: &mut Feed, body: &mut Sections) -> (read:
    Result<(), SyntaxFault>)
    requires
        old(feed).is_sound(),
        old(feed).cursor().head() is Some,
    ensures
        match type_section(*reader, old(feed).cursor(), old(body).model()) {
            Ok((more, next)) => read is Ok && final(body).model() == more && final(feed).is_sound()
                && final(feed).cursor() == next && goes_on(old(feed).cursor(), next),
            Err(wrong) => read is Err && read->Err_0 == wrong,
        },
{
    let scope: Scope = Scope::Body;
    proof {
        feed::lemma_past(feed.cursor());
    }
    feed.pass();
    let key_at: usize = feed.place();
    let ghost at_key = feed.cursor();
    let key: String = match read_name(reader, feed, scope) {
        Ok(key) => key,
        Err(wrong) => return Err(wrong),
    };
    let ghost named = feed.cursor();
    match read_mark(feed, scope, '=') {
        Ok(_) => {},
        Err(wrong) => return Err(wrong),
    }
    proof {
        feed::lemma_past(at_key);
        feed::lemma_past(named);
        lemma_fragment(*reader, Fragment::Type, ';', feed.cursor(), scope);
    }
    let start: usize = feed.place();
    match read_fragment(reader, Fragment::Type, ';', feed, scope) {
        Ok(_) => {},
        Err(wrong) => return Err(wrong),
    }
    let end: usize = feed.place();
    proof {
        lemma_mark_comes(feed.cursor(), ';');
    }
    match read_mark(feed, scope, ';') {
        Ok(_) => {},
        Err(wrong) => return Err(wrong),
    }
    let run: Option<Run> = Some(Run { start, end });
    if is_word(&key, "Input") {
        body.input = run;
    } else if is_word(&key, "Output") {
        body.output = run;
    } else if is_word(&key, "Error") {
        body.error = run;
    } else {
        return Err(SyntaxFault { scope, at: key_at, at_end: false, wanted: Wanted::KnownType });
    }
    Ok(())
}

/// Where a mark comes next, tokens are left.
proof fn lemma_mark_comes(cursor: Cursor, mark: char)
    ensures
        is_mark(cursor, mark) ==> cursor.rest.len() > 0 && feed::width(cursor.past().rest) + 1
            == feed::width(cursor.rest),
{
    if is_mark(cursor, mark) {
        feed::lemma_past(cursor);
    }
}

fn read_stages_value<R: FragmentReader>(reader: &R, feed: &mut Feed) -> (read: Result<
    StageDecls,
    SyntaxFault,
>)
    requires
        old(feed).is_sound(),
    ensures
        match stages_value(*reader, old(feed).cursor()) {
            Ok((stages, next)) => read is Ok && stages_model(read->Ok_0) == stages && final(feed).is_sound() && final(feed).cursor() == next && goes_on(old(feed).cursor(), next),
            Err(wrong) => read is Err && read->Err_0 == wrong,
        },
{
    let part: usize = feed.place();
    let ghost cursor = feed.cursor();
    let stages: StageDecls = if let Some(tokens) = peek_group(feed, Delimiter::Bracket) {
        match read_exprs(reader, tokens, part) {
            Ok(exprs) => StageDecls::Linear { part, exprs },
            Err(wrong) => return Err(wrong),
        }
    } else if let Some(tokens) = peek_group(feed, Delimiter::Brace) {
        match read_stages(reader, tokens, part) {
            Ok(stages) => StageDecls::Named { part, stages },
            Err(wrong) => return Err(wrong),
        }
    } else {
        return Err(fault_at(Scope::Body, feed, Wanted::Braces));
    };
    feed.pass();
    proof {
        feed::lemma_past(cursor);
    }
    Ok(stages)
}

fn read_graph_value<R: FragmentReader>(reader: &R, feed: &mut Feed) -> (read: Result<
    Vec<Edge>,
    SyntaxFault,
>)
    requires
        old(feed).is_sound(),
    ensures
        match braces_step(old(feed).cursor(), Scope::Body) {
            Ok(next) => match edge_list(
                *reader,
                feed::before(inner(old(feed).cursor())),
                old(feed).cursor().place(),
                Seq::empty(),
            ) {
                Ok(edges) => read is Ok && edge_models(read->Ok_0@) == edges && final(feed).is_sound() && final(feed).cursor() == next && goes_on(old(feed).cursor(), next),
                Err(wrong) => read is Err && read->Err_0 == wrong,
            },
            Err(wrong) => read is Err && read->Err_0 == wrong,
        },
{
    let ghost cursor = feed.cursor();
    let part: usize = feed.place();
    if let Some(tokens) = peek_group(feed, Delimiter::Brace) {
        let edges: Vec<Edge> = match read_edges(reader, tokens, part) {
            Ok(edges) => edges,
            Err(wrong) => return Err(wrong),
        };
        feed.pass();
        proof {
            feed::lemma_past(cursor);
        }
        Ok(edges)
    } else {
        Err(fault_at(Scope::Body, feed, Wanted::Braces))
    }
}

fn read_assignment_section<R: FragmentReader>(
    reader: &R,
    feed: &mut Feed,
    body: &mut Sections,
) -> (read: Result<(), SyntaxFault>)
    requires
        old(feed).is_sound(),
    ensures
        match assignment_section(*reader, old(feed).cursor(), old(body).model()) {
            Ok((more, next)) => read is Ok && final(body).model() == more && final(feed).is_sound()
                && final(feed).cursor() == next && goes_on(old(feed).cursor(), next),
            Err(wrong) => read is Err && read->Err_0 == wrong,
        },
{
    let scope: Scope = Scope::Body;
    let key_at: usize = feed.place();
    let ghost cursor = feed.cursor();
    let key: String = match read_name(reader, feed, scope) {
        Ok(key) => key,
        Err(wrong) => return Err(wrong),
    };
    let ghost named = feed.cursor();
    match read_mark(feed, scope, '=') {
        Ok(_) => {},
        Err(wrong) => return Err(wrong),
    }
    proof {
        feed::lemma_past(cursor);
        feed::lemma_past(named);
    }
    if is_word(&key, "config") {
        proof {
            lemma_fragment(*reader, Fragment::Expression, ';', feed.cursor(), scope);
        }
        let start: usize = feed.place();
        match read_fragment(reader, Fragment::Expression, ';', feed, scope) {
            Ok(_) => {},
            Err(wrong) => return Err(wrong),
        }
        let end: usize = feed.place();
        proof {
            lemma_mark_comes(feed.cursor(), ';');
        }
        match read_mark(feed, scope, ';') {
            Ok(_) => {},
            Err(wrong) => return Err(wrong),
        }
        body.config = Some(Run { start, end });
        Ok(())
    } else if is_word(&key, "stages") {
        let stages: StageDecls = match read_stages_value(reader, feed) {
            Ok(stages) => stages,
            Err(wrong) => return Err(wrong),
        };
        proof {
            lemma_mark_comes(feed.cursor(), ';');
        }
        match read_mark(feed, scope, ';') {
            Ok(_) => {},
            Err(wrong) => return Err(wrong),
        }
        body.stages = Some(stages);
        Ok(())
    } else if is_word(&key, "graph") {
        let edges: Vec<Edge> = match read_graph_value(reader, feed) {
            Ok(edges) => edges,
            Err(wrong) => return Err(wrong),
        };
        proof {
            lemma_mark_comes(feed.cursor(), ';');
        }
        match read_mark(feed, scope, ';') {
            Ok(_) => {},
            Err(wrong) => return Err(wrong),
        }
        body.graph = Some(edges);
        Ok(())
    } else {
        Err(SyntaxFault { scope, at: key_at, at_end: false, wanted: Wanted::KnownAssignment })
    }
}

fn holds_word(token: Option<&Token>, given: &str) -> (yes: bool)
    ensures
        yes == (token matches Some(token) && (*token matches Token::Ident(word) && word@
            == given@)),
{
    match token {
        Some(Token::Ident(word)) => is_word(word.text(), given),
        _ => false,
    }
}

fn read_body<R: FragmentReader>(reader: &R, tokens: &Vec<Token>) -> (read: Result<
    Sections,
    SyntaxFault,
>)
    ensures
        match body_from(*reader, feed::before(tokens@), empty_body()) {
            Ok(body) => read is Ok && read->Ok_0.model() == body,
            Err(wrong) => read is Err && read->Err_0 == wrong,
        },
{
    let mut body = Sections {
        input: None,
        output: None,
        error: None,
        config: None,
        stages: None,
        graph: None,
    };
    let mut feed: Feed = Feed::new(tokens);
    while feed.left() > 0
        invariant
            feed.is_sound(),
            body_from(*reader, feed::before(tokens@), empty_body()) == body_from(
                *reader,
                feed.cursor(),
                body.model(),
            ),
        decreases feed::width(feed.cursor().rest),
    {
        let read: Result<(), SyntaxFault> = if holds_word(feed.peek(), "type") {
            read_type_section(reader, &mut feed, &mut body)
        } else {
            read_assignment_section(reader, &mut feed, &mut body)
        };
        match read {
            Ok(_) => {},
            Err(wrong) => return Err(wrong),
        }
    }
    Ok(body)
}

/// The first part that a body lacks, if it lacks one.
pub open spec fn missing_part(body: BodyModel) -> Option<Wanted> {
    if body.input is None {
        Some(Wanted::InputType)
    } else if body.output is None {
        Some(Wanted::OutputType)
    } else if body.error is None {
        Some(Wanted::ErrorType)
    } else if body.config is None {
        Some(Wanted::Config)
    } else if body.stages is None {
        Some(Wanted::Stages)
    } else {
        None
    }
}

/// The cursor at the beginning of a declaration. A first group that holds
/// something is opened; an empty one stands for a visibility that was left out.
pub open spec fn declaration_start(tokens: Seq<Token>) -> Cursor {
    if tokens.len() > 0 && (tokens[0] matches Token::Group(Delimiter::Invisible, inner)
        && inner@.len() > 0) {
        feed::before(feed::opened(tokens))
    } else {
        feed::before(tokens)
    }
}

pub open spec fn is_struct_word(start: Cursor) -> spec_fn(int) -> bool {
    |p: int| next_word(start.skipped(p)) == Some("struct"@)
}

/// The cursor before the word `struct`: the first one, behind a visibility.
pub open spec fn struct_step<R: FragmentReader>(reader: R, start: Cursor) -> Result<
    Cursor,
    SyntaxFault,
> {
    match search::first_where(is_struct_word(start), 0, start.rest.len() as int) {
        Some(p) => if reader.reads(Fragment::Visibility, start.rest.take(p)) {
            Ok(start.skipped(p))
        } else {
            Err(fault(Scope::Whole, start, Wanted::StructWord))
        },
        None => Err(fault(Scope::Whole, start, Wanted::StructWord)),
    }
}

/// A declaration as a value.
pub struct DeclarationModel {
    pub visibility: Run,
    pub name_at: usize,
    pub body_at: usize,
    pub body: BodyModel,
}

/// What a declaration says, or what is wrong with it.
pub open spec fn declared<R: FragmentReader>(reader: R, tokens: Seq<Token>) -> Result<
    DeclarationModel,
    SyntaxFault,
> {
    let start = declaration_start(tokens);
    match struct_step(reader, start) {
        Err(wrong) => Err(wrong),
        Ok(word) => match name_step(reader, word.past(), Scope::Whole) {
            Err(wrong) => Err(wrong),
            Ok(named) => match braces_step(named, Scope::Whole) {
                Err(wrong) => Err(wrong),
                Ok(end) => match body_from(reader, feed::before(inner(named)), empty_body()) {
                    Err(wrong) => Err(wrong),
                    Ok(body) => match missing_part(body) {
                        Some(wanted) => Err(
                            SyntaxFault {
                                scope: Scope::Body,
                                at: feed::capped(feed::width(inner(named))),
                                at_end: true,
                                wanted,
                            },
                        ),
                        None => if end.head() is Some {
                            Err(fault(Scope::Whole, end, Wanted::Nothing))
                        } else {
                            Ok(
                                DeclarationModel {
                                    visibility: between(start, word),
                                    name_at: word.past().place(),
                                    body_at: named.place(),
                                    body,
                                },
                            )
                        },
                    },
                },
            },
        },
    }
}

/// What is wrong with a declaration, if anything is.
pub open spec fn declaration_fault<R: FragmentReader>(reader: R, tokens: Seq<Token>) -> Option<
    SyntaxFault,
> {
    match declared(reader, tokens) {
        Ok(_) => None,
        Err(wrong) => Some(wrong),
    }
}

/// The declaration says what was read.
pub open spec fn is_declaration_of<R: FragmentReader>(
    input: PipelineInput,
    reader: R,
    tokens: Seq<Token>,
) -> bool {
    match declared(reader, tokens) {
        Ok(model) => {
            &&& input.visibility == model.visibility
            &&& input.name_at == model.name_at
            &&& input.body_at == model.body_at
            &&& model.body.input == Some(input.input)
            &&& model.body.output == Some(input.output)
            &&& model.body.error == Some(input.error)
            &&& model.body.config == Some(input.config)
            &&& model.body.stages == Some(stages_model(input.stages))
            &&& model.body.graph == graph_model(input.graph)
        },
        Err(_) => false,
    }
}

/// Begins to read a declaration.
fn start_declaration<'a>(tokens: &'a Vec<Token>) -> (feed: Feed<'a>)
    ensures
        feed.is_sound(),
        feed.cursor() == declaration_start(tokens@),
{
    let mut feed: Feed<'a> = Feed::new(tokens);
    if tokens.len() > 0 {
        if let Token::Group(Delimiter::Invisible, inner) = &tokens[0] {
            if inner.len() > 0 {
                feed.enter();
            }
        }
    }
    feed
}

/// Moves before the word `struct`.
fn find_struct_word<R: FragmentReader>(reader: &R, feed: &mut Feed) -> (read: Result<
    (),
    SyntaxFault,
>)
    requires
        old(feed).is_sound(),
    ensures
        same_step(read, *final(feed), struct_step(*reader, old(feed).cursor())),
        read is Ok ==> final(feed).cursor().head() is Some,
{
    let count: usize = feed.left();
    let ghost start = feed.cursor();
    let ghost p = is_struct_word(start);
    let mut place: usize = 0;
    while place < count
        invariant
            place <= count,
            feed.is_sound(),
            feed.cursor() == start,
            start == old(feed).cursor(),
            count == start.rest.len(),
            p == is_struct_word(start),
            search::first_where(p, 0, count as int) == search::first_where(
                p,
                place as int,
                count as int,
            ),
        decreases count - place,
    {
        if holds_word(feed.look(place), "struct") {
            return if reader.check(Fragment::Visibility, &feed.run(place)) {
                feed.skip(place);
                Ok(())
            } else {
                Err(fault_at(Scope::Whole, feed, Wanted::StructWord))
            };
        }
        place += 1;
    }
    Err(fault_at(Scope::Whole, feed, Wanted::StructWord))
}

/// A declaration was read: what it says, or what is wrong with it.
pub open spec fn is_reading_of<R: FragmentReader>(
    read: Result<PipelineInput, SyntaxFault>,
    reader: R,
    tokens: Seq<Token>,
) -> bool {
    match declaration_fault(reader, tokens) {
        Some(wrong) => read is Err && read->Err_0 == wrong,
        None => read is Ok && is_declaration_of(read->Ok_0, reader, tokens),
    }
}

/// Reads the declaration of a pipeline off a stream, by Rust's own grammar, or
/// says what is wrong with it.
pub fn parse_declaration(stream: TokenStream) -> (read: Result<PipelineInput, SyntaxFault>)
    ensures
        exists|tokens: Seq<Token>| #[trigger]
            is_reading_of(read, RustReader, tokens) && tokens::trees(tokens)
                == tokens::stream_trees(stream),
{
    let tokens: Vec<Token> = read_tokens(stream);
    let read: Result<PipelineInput, SyntaxFault> = parse_pipeline(&RustReader, &tokens);
    assert(is_reading_of(read, RustReader, tokens@));
    read
}

/// Reads the declaration of a pipeline, or says what is wrong with it.
pub fn parse_pipeline<R: FragmentReader>(reader: &R, tokens: &Vec<Token>) -> (read: Result<
    PipelineInput,
    SyntaxFault,
>)
    ensures
        is_reading_of(read, *reader, tokens@),
{
    let mut feed: Feed = start_declaration(tokens);
    match find_struct_word(reader, &mut feed) {
        Ok(_) => {},
        Err(wrong) => return Err(wrong),
    }
    let visibility = Run { start: 0, end: feed.place() };
    feed.pass();
    let name_at: usize = feed.place();
    match read_name(reader, &mut feed, Scope::Whole) {
        Ok(_) => {},
        Err(wrong) => return Err(wrong),
    }
    let body_at: usize = feed.place();
    let body_tokens: &Vec<Token> = match peek_group(&feed, Delimiter::Brace) {
        Some(found) => found,
        None => return Err(fault_at(Scope::Whole, &feed, Wanted::Braces)),
    };
    feed.pass();
    let body: Sections = match read_body(reader, body_tokens) {
        Ok(body) => body,
        Err(wrong) => return Err(wrong),
    };
    let at: usize = count_tokens(body_tokens);
    let (scope, at_end) = (Scope::Body, true);
    let input: Run = match body.input {
        Some(run) => run,
        None => return Err(SyntaxFault { scope, at, at_end, wanted: Wanted::InputType }),
    };
    let output: Run = match body.output {
        Some(run) => run,
        None => return Err(SyntaxFault { scope, at, at_end, wanted: Wanted::OutputType }),
    };
    let error: Run = match body.error {
        Some(run) => run,
        None => return Err(SyntaxFault { scope, at, at_end, wanted: Wanted::ErrorType }),
    };
    let config: Run = match body.config {
        Some(run) => run,
        None => return Err(SyntaxFault { scope, at, at_end, wanted: Wanted::Config }),
    };
    let stages: StageDecls = match body.stages {
        Some(stages) => stages,
        None => return Err(SyntaxFault { scope, at, at_end, wanted: Wanted::Stages }),
    };
    if feed.peek().is_some() {
        return Err(fault_at(Scope::Whole, &feed, Wanted::Nothing));
    }
    Ok(
        PipelineInput {
            visibility,
            name_at,
            body_at,
            input,
            output,
            error,
            config,
            stages,
            graph: body.graph,
        },
    )
}

/// How the stages of a declaration and its graph go together.
#[derive(Clone, Copy, Debug, PartialEq, Eq, Structural)]
pub enum Shape {
    Chain,
    Graph,
    GraphWithoutNames,
    NamesWithoutGraph,
}

/// Stages in a list are a chain; named stages need a graph, and a graph needs
/// named stages.
pub open spec fn shape_of(stages: StageDecls, graph: Option<Vec<Edge>>) -> Shape {
    if stages is Linear {
        if graph is None {
            Shape::Chain
        } else {
            Shape::GraphWithoutNames
        }
    } else if graph is Some {
        Shape::Graph
    } else {
        Shape::NamesWithoutGraph
    }
}

impl PipelineInput {
    /// How the stages and the graph go together.
    pub fn shape(&self) -> (shape: Shape)
        ensures
            shape == shape_of(self.stages, self.graph),
    {
        match &self.stages {
            StageDecls::Linear { .. } => if self.graph.is_none() {
                Shape::Chain
            } else {
                Shape::GraphWithoutNames
            },
            StageDecls::Named { .. } => if self.graph.is_some() {
                Shape::Graph
            } else {
                Shape::NamesWithoutGraph
            },
        }
    }
}

impl Shape {
    /// What is wrong with the shape, if anything is.
    pub fn fault(self) -> (text: Option<String>)
        ensures
            match self {
                Shape::GraphWithoutNames => text is Some && text->0@
                    == "`graph = ...` requires named `stages = { ... };`"@,
                Shape::NamesWithoutGraph => text is Some && text->0@
                    == "named stages require `graph = { ... };`"@,
                _ => text is None,
            },
    {
        match self {
            Shape::GraphWithoutNames => Some(
                "`graph = ...` requires named `stages = { ... };`".to_string(),
            ),
            Shape::NamesWithoutGraph => Some(
                "named stages require `graph = { ... };`".to_string(),
            ),
            _ => None,
        }
    }
}

/// A run lies within so many visible tokens.
pub open spec fn run_fits(run: Run, count: nat) -> bool {
    run.start <= run.end <= feed::capped(count)
}

/// The runs of a body lie within its tokens.
pub open spec fn body_fits(body: BodyModel, count: nat) -> bool {
    &&& body.input matches Some(run) ==> run_fits(run, count)
    &&& body.output matches Some(run) ==> run_fits(run, count)
    &&& body.error matches Some(run) ==> run_fits(run, count)
    &&& body.config matches Some(run) ==> run_fits(run, count)
}

/// The visible tokens behind a cursor and those before it.
pub open spec fn all_of(cursor: Cursor) -> nat {
    cursor.at + feed::width(cursor.rest)
}

proof fn lemma_past_keeps_all(cursor: Cursor)
    ensures
        cursor.head() is Some ==> all_of(cursor.past()) == all_of(cursor),
{
    if cursor.head() is Some {
        feed::lemma_past(cursor);
    }
}

proof fn lemma_section_fits<R: FragmentReader>(reader: R, cursor: Cursor, body: BodyModel)
    requires
        body_fits(body, all_of(cursor)),
        cursor.rest.len() > 0,
    ensures
        section_step(reader, cursor, body) matches Ok((more, next)) ==> body_fits(
            more,
            all_of(cursor),
        ) && all_of(next) == all_of(cursor),
{
    let scope = Scope::Body;
    lemma_past_keeps_all(cursor);
    lemma_past_keeps_all(cursor.past());
    lemma_past_keeps_all(cursor.past().past());
    let fragment = if next_word(cursor) == Some("type"@) {
        Fragment::Type
    } else {
        Fragment::Expression
    };
    let start = if next_word(cursor) == Some("type"@) {
        cursor.past().past().past()
    } else {
        cursor.past().past()
    };
    lemma_fragment(reader, fragment, ';', start, scope);
    if let Ok(end) = fragment_step(reader, fragment, ';', start, scope) {
        lemma_past_keeps_all(end);
    }
    lemma_past_keeps_all(start);
    lemma_past_keeps_all(start.past());
}

proof fn lemma_body_fits<R: FragmentReader>(reader: R, cursor: Cursor, body: BodyModel)
    requires
        body_fits(body, all_of(cursor)),
    ensures
        body_from(reader, cursor, body) matches Ok(whole) ==> body_fits(whole, all_of(cursor)),
    decreases feed::width(cursor.rest),
{
    if cursor.rest.len() > 0 {
        lemma_section_fits(reader, cursor, body);
        if let Ok((more, next)) = section_step(reader, cursor, body) {
            if goes_on(cursor, next) {
                lemma_body_fits(reader, next, more);
            }
        }
    }
}

/// The types and the configuration of a declaration are tokens of its body.
pub proof fn law_runs_lie_in_the_body<R: FragmentReader>(
    input: PipelineInput,
    reader: R,
    tokens: Seq<Token>,
)
    requires
        is_declaration_of(input, reader, tokens),
    ensures
        ({
            let count = feed::width(body_tokens(reader, tokens));
            &&& run_fits(input.input, count)
            &&& run_fits(input.output, count)
            &&& run_fits(input.error, count)
            &&& run_fits(input.config, count)
        }),
{
    lemma_body_fits(reader, feed::before(body_tokens(reader, tokens)), empty_body());
}

/// The tokens of a declaration's body.
pub open spec fn body_tokens<R: FragmentReader>(reader: R, tokens: Seq<Token>) -> Seq<Token> {
    let word = struct_step(reader, declaration_start(tokens))->Ok_0;
    inner(name_step(reader, word.past(), Scope::Whole)->Ok_0)
}

/// None of the tokens is an invisible group, so that each counts for itself.
pub open spec fn are_visible(tokens: Seq<Token>) -> bool {
    forall|i: int|
        0 <= i < tokens.len() ==> !((#[trigger] tokens[i]) matches Token::Group(
            Delimiter::Invisible,
            _,
        ))
}

/// The cursor before token `i`.
pub open spec fn before_token(tokens: Seq<Token>, i: int) -> Cursor {
    Cursor { rest: tokens.skip(i), at: i as nat }
}

/// The token is a name.
pub open spec fn is_name<R: FragmentReader>(reader: R, token: Token) -> bool {
    token is Ident && reader.names(token->Ident_0@)
}

/// The token is the mark.
pub open spec fn is_punct(token: Token, mark: char) -> bool {
    token is Punct && token->mark == mark
}

proof fn lemma_visible_width(tokens: Seq<Token>)
    requires
        are_visible(tokens),
    ensures
        feed::width(tokens) == tokens.len(),
    decreases tokens.len(),
{
    if tokens.len() > 0 {
        let rest = tokens.subrange(1, tokens.len() as int);
        assert forall|i: int| 0 <= i < rest.len() implies !((#[trigger] rest[i]) matches Token::Group(
            Delimiter::Invisible,
            _,
        )) by {
            assert(rest[i] == tokens[i + 1]);
        }
        lemma_visible_width(rest);
        assert(!(tokens[0] matches Token::Group(Delimiter::Invisible, _)));
        assert(feed::token_width(tokens[0]) == 1);
    }
}

proof fn lemma_visible(tokens: Seq<Token>, i: int, count: int)
    requires
        are_visible(tokens),
        0 <= i <= tokens.len(),
        0 <= count <= tokens.len() - i,
    ensures
        ({
            let cursor = before_token(tokens, i);
            &&& cursor.rest.len() == tokens.len() - i
            &&& feed::width(cursor.rest) == tokens.len() - i
            &&& cursor.head() == if i < tokens.len() {
                Some(tokens[i])
            } else {
                None
            }
            &&& i < tokens.len() ==> cursor.past() == before_token(tokens, i + 1)
            &&& cursor.skipped(count) == before_token(tokens, i + count)
            &&& tokens.len() <= usize::MAX ==> cursor.place() == i
        }),
        feed::before(tokens) == before_token(tokens, 0),
{
    let cursor = before_token(tokens, i);
    let rest = cursor.rest;
    assert(are_visible(rest)) by {
        assert forall|k: int| 0 <= k < rest.len() implies !((#[trigger] rest[k]) matches Token::Group(
            Delimiter::Invisible,
            _,
        )) by {
            assert(rest[k] == tokens[i + k]);
        }
    }
    lemma_visible_width(rest);
    let head = rest.take(count);
    assert(are_visible(head)) by {
        assert forall|k: int| 0 <= k < head.len() implies !((#[trigger] head[k]) matches Token::Group(
            Delimiter::Invisible,
            _,
        )) by {
            assert(head[k] == tokens[i + k]);
        }
    }
    lemma_visible_width(head);
    if rest.len() > 0 {
        assert(!(rest[0] matches Token::Group(Delimiter::Invisible, _)));
        assert(feed::opened(rest) == rest);
        assert(rest.skip(1) =~= tokens.skip(i + 1));
    }
    assert(rest.skip(count) =~= tokens.skip(i + count));
    assert(tokens.skip(0) =~= tokens);
}

/// From token `i` on, the tokens are names with a comma behind each but perhaps the
/// last.
pub open spec fn are_names_and_commas<R: FragmentReader>(
    reader: R,
    tokens: Seq<Token>,
    i: int,
) -> bool {
    forall|k: int|
        i <= k < tokens.len() ==> if (k - i) % 2 == 0 {
            is_name(reader, #[trigger] tokens[k])
        } else {
            is_punct(tokens[k], ',')
        }
}

proof fn lemma_names_form<R: FragmentReader>(reader: R, tokens: Seq<Token>, i: int)
    requires
        0 <= i < tokens.len(),
    ensures
        are_names_and_commas(reader, tokens, i) <==> is_name(reader, tokens[i]) && (i + 1
            < tokens.len() ==> is_punct(tokens[i + 1], ',') && are_names_and_commas(
            reader,
            tokens,
            i + 2,
        )),
{
    let n = tokens.len() as int;
    if are_names_and_commas(reader, tokens, i) {
        assert(is_name(reader, tokens[i]));
        if i + 1 < n {
            assert((i + 1 - i) % 2 == 1);
            assert(is_punct(tokens[i + 1], ','));
            assert forall|k: int| i + 2 <= k < n implies if (k - (i + 2)) % 2 == 0 {
                is_name(reader, #[trigger] tokens[k])
            } else {
                is_punct(tokens[k], ',')
            } by {
                assert((k - i) % 2 == (k - (i + 2)) % 2);
            }
        }
    }
    if is_name(reader, tokens[i]) && (i + 1 < n ==> is_punct(tokens[i + 1], ',')
        && are_names_and_commas(reader, tokens, i + 2)) {
        assert forall|k: int| i <= k < n implies if (k - i) % 2 == 0 {
            is_name(reader, #[trigger] tokens[k])
        } else {
            is_punct(tokens[k], ',')
        } by {
            if k >= i + 2 {
                assert((k - i) % 2 == (k - (i + 2)) % 2);
                assert(tokens[k] == tokens[k]);
            }
        }
    }
}

/// The list is the endpoints that were read before and, behind them, those that the
/// names from token `i` on mean.
spec fn follow_names(
    list: Seq<EndpointModel>,
    done: Seq<EndpointModel>,
    tokens: Seq<Token>,
    i: int,
) -> bool {
    &&& list.len() == done.len() + (tokens.len() - i + 1) / 2
    &&& forall|j: int| 0 <= j < done.len() ==> #[trigger] list[j] == done[j]
    &&& forall|j: int|
        done.len() <= j < list.len() ==> #[trigger] list[j] == endpoint_of(
            tokens[i + 2 * (j - done.len())]->Ident_0@,
        )
}

proof fn lemma_follow_names(
    list: Seq<EndpointModel>,
    done: Seq<EndpointModel>,
    tokens: Seq<Token>,
    i: int,
)
    requires
        0 <= i < tokens.len(),
        i + 1 < tokens.len() ==> follow_names(
            list,
            done.push(endpoint_of(tokens[i]->Ident_0@)),
            tokens,
            i + 2,
        ),
        i + 1 == tokens.len() ==> list == done.push(endpoint_of(tokens[i]->Ident_0@)),
    ensures
        follow_names(list, done, tokens, i),
{
    let more = done.push(endpoint_of(tokens[i]->Ident_0@));
    assert(list.len() == done.len() + (tokens.len() - i + 1) / 2);
    assert forall|j: int| 0 <= j < done.len() implies #[trigger] list[j] == done[j] by {
        assert(list[j] == more[j]);
    }
    assert forall|j: int| done.len() <= j < list.len() implies #[trigger] list[j] == endpoint_of(
        tokens[i + 2 * (j - done.len())]->Ident_0@,
    ) by {
        if j == done.len() {
            assert(list[j] == more[j]);
        } else {
            assert(i + 2 + 2 * (j - more.len()) == i + 2 * (j - done.len()));
        }
    }
}

#[verifier::spinoff_prover]
proof fn lemma_endpoint_list<R: FragmentReader>(
    reader: R,
    tokens: Seq<Token>,
    i: int,
    scope: Scope,
    done: Seq<EndpointModel>,
)
    requires
        are_visible(tokens),
        0 <= i <= tokens.len(),
    ensures
        ({
            let read = endpoint_list(reader, before_token(tokens, i), scope, done);
            &&& read is Ok <==> are_names_and_commas(reader, tokens, i)
            &&& read is Ok ==> follow_names(read->Ok_0, done, tokens, i)
        }),
    decreases tokens.len() - i,
{
    let cursor = before_token(tokens, i);
    lemma_visible(tokens, i, 0);
    if i < tokens.len() {
        lemma_visible(tokens, i + 1, 0);
        lemma_names_form(reader, tokens, i);
        let read = endpoint_list(reader, cursor, scope, done);
        if is_name(reader, tokens[i]) {
            let more = done.push(endpoint_of(tokens[i]->Ident_0@));
            assert(name_step(reader, cursor, scope) == Ok::<Cursor, SyntaxFault>(
                before_token(tokens, i + 1),
            ));
            if i + 1 == tokens.len() {
                assert(read == Ok::<Seq<EndpointModel>, SyntaxFault>(more));
                lemma_follow_names(more, done, tokens, i);
            } else if is_punct(tokens[i + 1], ',') {
                lemma_visible(tokens, i + 2, 0);
                lemma_endpoint_list(reader, tokens, i + 2, scope, more);
                assert(read == endpoint_list(reader, before_token(tokens, i + 2), scope, more));
                if read is Ok {
                    lemma_follow_names(read->Ok_0, done, tokens, i);
                }
            } else {
                assert(read is Err);
            }
        } else {
            assert(read is Err);
        }
    }
}

/// A list of endpoints is read exactly where it is names with commas between them, and
/// perhaps one at the end: `input` and `output` are the pipeline's ends, and any other
/// name is a stage. Each name is one endpoint, in order.
pub proof fn law_endpoints_are_read_in_order<R: FragmentReader>(
    reader: R,
    tokens: Seq<Token>,
    scope: Scope,
    j: int,
)
    requires
        are_visible(tokens),
    ensures
        ({
            let read = endpoint_list(reader, feed::before(tokens), scope, Seq::empty());
            &&& read is Ok <==> forall|k: int|
                0 <= k < tokens.len() ==> if k % 2 == 0 {
                    is_name(reader, #[trigger] tokens[k])
                } else {
                    is_punct(tokens[k], ',')
                }
            &&& read is Ok ==> 2 * read->Ok_0.len() == tokens.len() || 2 * read->Ok_0.len()
                == tokens.len() + 1
            &&& read is Ok && 0 <= j < read->Ok_0.len() ==> {
                let word = tokens[2 * j]->Ident_0@;
                &&& word == "input"@ ==> read->Ok_0[j] is Input
                &&& word == "output"@ && word != "input"@ ==> read->Ok_0[j] is Output
                &&& word != "input"@ && word != "output"@ ==> read->Ok_0[j]
                    == EndpointModel::Stage(word)
            }
        }),
{
    lemma_visible(tokens, 0, 0);
    lemma_endpoint_list(reader, tokens, 0, scope, Seq::empty());
    let read = endpoint_list(reader, feed::before(tokens), scope, Seq::empty());
    assert(are_names_and_commas(reader, tokens, 0) <==> forall|k: int|
        0 <= k < tokens.len() ==> if k % 2 == 0 {
            is_name(reader, #[trigger] tokens[k])
        } else {
            is_punct(tokens[k], ',')
        }) by {
        assert forall|k: int| #![trigger tokens[k]] (k - 0) % 2 == k % 2 by {}
    }
}

/// The token is one side of an edge: a name, or a list of them in brackets.
pub open spec fn is_side<R: FragmentReader>(reader: R, token: Token) -> bool {
    is_name(reader, token) || (token is Group && token->Group_0 == Delimiter::Bracket
        && are_names_and_commas(reader, token->Group_1@, 0))
}

/// What lies in the bracketed lists among the tokens is visible.
pub open spec fn lists_are_visible(tokens: Seq<Token>) -> bool {
    forall|i: int|
        0 <= i < tokens.len() && (#[trigger] tokens[i]) is Group && tokens[i]->Group_0
            == Delimiter::Bracket ==> are_visible(tokens[i]->Group_1@)
}

/// The endpoints that one side of an edge names: the one of a name, or those of a list,
/// in order.
pub open spec fn names_endpoints(token: Token, endpoints: Seq<EndpointModel>) -> bool {
    if token is Ident {
        endpoints.len() == 1 && endpoints[0] == endpoint_of(token->Ident_0@)
    } else {
        &&& endpoints.len() == (token->Group_1@.len() + 1) / 2
        &&& forall|j: int|
            0 <= j < endpoints.len() ==> #[trigger] endpoints[j] == endpoint_of(
                token->Group_1@[2 * j]->Ident_0@,
            )
    }
}

proof fn lemma_side<R: FragmentReader>(reader: R, tokens: Seq<Token>, i: int, part: usize)
    requires
        are_visible(tokens),
        lists_are_visible(tokens),
        0 <= i <= tokens.len(),
    ensures
        ({
            let read = side_step(reader, before_token(tokens, i), part);
            &&& read is Ok <==> i < tokens.len() && is_side(reader, tokens[i])
            &&& read is Ok ==> read->Ok_0.1 == before_token(tokens, i + 1) && names_endpoints(
                tokens[i],
                read->Ok_0.0,
            )
        }),
{
    let cursor = before_token(tokens, i);
    lemma_visible(tokens, i, 0);
    if i < tokens.len() && tokens[i] is Group && tokens[i]->Group_0 == Delimiter::Bracket {
        let within = tokens[i]->Group_1@;
        assert(are_visible(within));
        lemma_visible(within, 0, 0);
        lemma_endpoint_list(
            reader,
            within,
            0,
            Scope::List { part, list: cursor.place() },
            Seq::empty(),
        );
        let read = side_step(reader, cursor, part);
        if read is Ok {
            let list = read->Ok_0.0;
            assert forall|j: int| 0 <= j < list.len() implies #[trigger] list[j] == endpoint_of(
                within[2 * j]->Ident_0@,
            ) by {}
        }
    }
}

/// From token `i` on, the tokens are edges with a semicolon behind each but perhaps the
/// last: a side, an arrow of two joint marks, and a side.
pub open spec fn are_edges<R: FragmentReader>(reader: R, tokens: Seq<Token>, i: int) -> bool {
    &&& (tokens.len() - i) % 5 == 0 || (tokens.len() - i) % 5 == 4
    &&& forall|k: int|
        i <= k < tokens.len() ==> {
            &&& (k - i) % 5 == 0 || (k - i) % 5 == 3 ==> is_side(reader, #[trigger] tokens[k])
            &&& (k - i) % 5 == 1 ==> is_punct(tokens[k], '-') && tokens[k]->joint
            &&& (k - i) % 5 == 2 ==> is_punct(tokens[k], '>')
            &&& (k - i) % 5 == 4 ==> is_punct(tokens[k], ';')
        }
}

#[verifier::spinoff_prover]
proof fn lemma_edge<R: FragmentReader>(reader: R, tokens: Seq<Token>, i: int, part: usize)
    requires
        are_visible(tokens),
        lists_are_visible(tokens),
        0 <= i <= tokens.len(),
    ensures
        ({
            let read = edge_step(reader, before_token(tokens, i), part);
            &&& read is Ok <==> {
                &&& i + 4 <= tokens.len()
                &&& is_side(reader, tokens[i])
                &&& is_punct(tokens[i + 1], '-') && tokens[i + 1]->joint
                &&& is_punct(tokens[i + 2], '>')
                &&& is_side(reader, tokens[i + 3])
            }
            &&& read is Ok ==> {
                &&& read->Ok_0.1 == before_token(tokens, i + 4)
                &&& names_endpoints(tokens[i], read->Ok_0.0.from)
                &&& names_endpoints(tokens[i + 3], read->Ok_0.0.to)
            }
        }),
{
    lemma_side(reader, tokens, i, part);
    if i < tokens.len() && is_side(reader, tokens[i]) {
        lemma_visible(tokens, i + 1, 0);
        if i + 1 < tokens.len() {
            lemma_visible(tokens, i + 2, 0);
            if i + 2 < tokens.len() {
                lemma_side(reader, tokens, i + 3, part);
            }
        }
    }
}

#[verifier::spinoff_prover]
proof fn lemma_edge_form<R: FragmentReader>(reader: R, tokens: Seq<Token>, i: int)
    requires
        0 <= i < tokens.len(),
    ensures
        are_edges(reader, tokens, i) <==> {
            &&& i + 4 <= tokens.len()
            &&& is_side(reader, tokens[i])
            &&& is_punct(tokens[i + 1], '-') && tokens[i + 1]->joint
            &&& is_punct(tokens[i + 2], '>')
            &&& is_side(reader, tokens[i + 3])
            &&& i + 4 < tokens.len() ==> is_punct(tokens[i + 4], ';') && are_edges(
                reader,
                tokens,
                i + 5,
            )
        },
{
    let n = tokens.len() as int;
    if are_edges(reader, tokens, i) {
        assert(i + 4 <= n);
        assert(is_side(reader, tokens[i]) && tokens[i + 1] == tokens[i + 1]);
        assert((i + 1 - i) % 5 == 1 && (i + 2 - i) % 5 == 2 && (i + 3 - i) % 5 == 3);
        assert(is_punct(tokens[i + 1], '-') && is_punct(tokens[i + 2], '>'));
        if i + 4 < n {
            assert(is_punct(tokens[i + 4], ';'));
            assert forall|k: int| i + 5 <= k < n implies {
                &&& (k - (i + 5)) % 5 == 0 || (k - (i + 5)) % 5 == 3 ==> is_side(
                    reader,
                    #[trigger] tokens[k],
                )
                &&& (k - (i + 5)) % 5 == 1 ==> is_punct(tokens[k], '-') && tokens[k]->joint
                &&& (k - (i + 5)) % 5 == 2 ==> is_punct(tokens[k], '>')
                &&& (k - (i + 5)) % 5 == 4 ==> is_punct(tokens[k], ';')
            } by {
                assert((k - (i + 5)) % 5 == (k - i) % 5);
            }
        }
    }
    if i + 4 <= n && is_side(reader, tokens[i]) && is_punct(tokens[i + 1], '-')
        && tokens[i + 1]->joint && is_punct(tokens[i + 2], '>') && is_side(reader, tokens[i + 3])
        && (i + 4 < n ==> is_punct(tokens[i + 4], ';') && are_edges(reader, tokens, i + 5)) {
        assert forall|k: int| i <= k < n implies {
            &&& (k - i) % 5 == 0 || (k - i) % 5 == 3 ==> is_side(reader, #[trigger] tokens[k])
            &&& (k - i) % 5 == 1 ==> is_punct(tokens[k], '-') && tokens[k]->joint
            &&& (k - i) % 5 == 2 ==> is_punct(tokens[k], '>')
            &&& (k - i) % 5 == 4 ==> is_punct(tokens[k], ';')
        } by {
            if k >= i + 5 {
                assert((k - (i + 5)) % 5 == (k - i) % 5);
                assert(tokens[k] == tokens[k]);
            }
        }
    }
}

#[verifier::spinoff_prover]
proof fn lemma_edge_list<R: FragmentReader>(
    reader: R,
    tokens: Seq<Token>,
    i: int,
    part: usize,
    done: Seq<EdgeModel>,
)
    requires
        are_visible(tokens),
        lists_are_visible(tokens),
        0 <= i <= tokens.len(),
    ensures
        ({
            let read = edge_list(reader, before_token(tokens, i), part, done);
            &&& read is Ok <==> are_edges(reader, tokens, i)
            &&& read is Ok ==> {
                &&& read->Ok_0.len() == done.len() + (tokens.len() - i + 1) / 5
                &&& forall|j: int| 0 <= j < done.len() ==> #[trigger] read->Ok_0[j] == done[j]
                &&& forall|j: int|
                    done.len() <= j < read->Ok_0.len() ==> names_endpoints(
                        tokens[i + 5 * (j - done.len())],
                        (#[trigger] read->Ok_0[j]).from,
                    ) && names_endpoints(
                        tokens[i + 5 * (j - done.len()) + 3],
                        read->Ok_0[j].to,
                    )
            }
        }),
    decreases tokens.len() - i,
{
    let cursor = before_token(tokens, i);
    lemma_visible(tokens, i, 0);
    let read = edge_list(reader, cursor, part, done);
    if i < tokens.len() {
        lemma_edge(reader, tokens, i, part);
        lemma_edge_form(reader, tokens, i);
        let step = edge_step(reader, cursor, part);
        if step is Ok {
            let more = done.push(step->Ok_0.0);
            lemma_visible(tokens, i + 4, 0);
            if i + 4 < tokens.len() && is_punct(tokens[i + 4], ';') {
                lemma_visible(tokens, i + 5, 0);
                lemma_edge_list(reader, tokens, i + 5, part, more);
                let next = edge_list(reader, before_token(tokens, i + 5), part, more);
                assert(read == next);
                if read is Ok {
                    let list = read->Ok_0;
                    assert forall|j: int| 0 <= j < done.len() implies #[trigger] list[j]
                        == done[j] by {
                        assert(list[j] == more[j]);
                    }
                    assert forall|j: int| done.len() <= j < list.len() implies names_endpoints(
                        tokens[i + 5 * (j - done.len())],
                        (#[trigger] list[j]).from,
                    ) && names_endpoints(tokens[i + 5 * (j - done.len()) + 3], list[j].to) by {
                        if j == done.len() {
                            assert(list[j] == more[j]);
                        } else {
                            assert(i + 5 + 5 * (j - more.len()) == i + 5 * (j - done.len()));
                        }
                    }
                }
            }
        }
    }
}

/// A graph is read exactly where it is edges with semicolons between them, and perhaps
/// one at the end; an edge is a side, an arrow and a side, and a side is a name or a
/// list of names in brackets. Each edge goes from the endpoints that its first side
/// names to those that its last one does, in order.
#[verifier::spinoff_prover]
pub proof fn law_edges_are_read_in_order<R: FragmentReader>(
    reader: R,
    tokens: Seq<Token>,
    part: usize,
    j: int,
)
    requires
        are_visible(tokens),
        lists_are_visible(tokens),
    ensures
        ({
            let read = edge_list(reader, feed::before(tokens), part, Seq::empty());
            &&& read is Ok <==> {
                &&& tokens.len() % 5 == 0 || tokens.len() % 5 == 4
                &&& forall|k: int|
                    0 <= k < tokens.len() ==> {
                        &&& k % 5 == 0 || k % 5 == 3 ==> is_side(reader, #[trigger] tokens[k])
                        &&& k % 5 == 1 ==> is_punct(tokens[k], '-') && tokens[k]->joint
                        &&& k % 5 == 2 ==> is_punct(tokens[k], '>')
                        &&& k % 5 == 4 ==> is_punct(tokens[k], ';')
                    }
            }
            &&& read is Ok ==> 5 * read->Ok_0.len() == tokens.len() || 5 * read->Ok_0.len()
                == tokens.len() + 1
            &&& read is Ok && 0 <= j < read->Ok_0.len() ==> names_endpoints(
                tokens[5 * j],
                read->Ok_0[j].from,
            ) && names_endpoints(tokens[5 * j + 3], read->Ok_0[j].to)
        }),
{
    lemma_visible(tokens, 0, 0);
    lemma_edge_list(reader, tokens, 0, part, Seq::empty());
    let n = tokens.len() as int;
    let form = (n % 5 == 0 || n % 5 == 4) && forall|k: int|
        0 <= k < n ==> {
            &&& k % 5 == 0 || k % 5 == 3 ==> is_side(reader, #[trigger] tokens[k])
            &&& k % 5 == 1 ==> is_punct(tokens[k], '-') && tokens[k]->joint
            &&& k % 5 == 2 ==> is_punct(tokens[k], '>')
            &&& k % 5 == 4 ==> is_punct(tokens[k], ';')
        };
    assert(form <==> are_edges(reader, tokens, 0)) by {
        assert forall|k: int| #![trigger tokens[k]] (k - 0) % 5 == k % 5 by {}
    }
}

/// The tokens from `start` up to `end` are the first fragment there that the mark, or
/// the end of the tokens, follows.
pub open spec fn is_first_fragment<R: FragmentReader>(
    reader: R,
    fragment: Fragment,
    stop: char,
    tokens: Seq<Token>,
    start: int,
    end: int,
) -> bool {
    &&& start <= end <= tokens.len()
    &&& reader.reads(fragment, tokens.subrange(start, end))
    &&& end < tokens.len() ==> is_punct(tokens[end], stop)
    &&& forall|q: int|
        start <= q < end && is_punct(#[trigger] tokens[q], stop) ==> !reader.reads(
            fragment,
            tokens.subrange(start, q),
        )
}

#[verifier::spinoff_prover]
proof fn lemma_first_fragment<R: FragmentReader>(
    reader: R,
    fragment: Fragment,
    stop: char,
    tokens: Seq<Token>,
    start: int,
    scope: Scope,
)
    requires
        are_visible(tokens),
        0 <= start <= tokens.len(),
    ensures
        ({
            let read = fragment_step(reader, fragment, stop, before_token(tokens, start), scope);
            &&& read matches Ok(end) ==> end == before_token(tokens, end.at as int)
                && is_first_fragment(reader, fragment, stop, tokens, start, end.at as int)
            &&& read is Err ==> forall|end: int|
                !is_first_fragment(reader, fragment, stop, tokens, start, end)
        }),
{
    let cursor = before_token(tokens, start);
    let count = cursor.rest.len() as int;
    let p = ends_fragment(reader, fragment, stop, cursor);
    search::lemma_first_where_holds(p, 0, count + 1);
    lemma_visible(tokens, start, 0);
    assert forall|k: int| 0 <= k <= count implies #[trigger] p(k) == ((k == count || is_punct(
        tokens[start + k],
        stop,
    )) && reader.reads(fragment, tokens.subrange(start, start + k))) by {
        lemma_visible(tokens, start, k);
        lemma_visible(tokens, start + k, 0);
        assert(cursor.rest.take(k) =~= tokens.subrange(start, start + k));
    }
    match search::first_where(p, 0, count + 1) {
        Some(end) => {
            lemma_visible(tokens, start, end);
            assert(p(end));
            assert forall|q: int|
                start <= q < start + end && is_punct(#[trigger] tokens[q], stop) implies !reader.reads(
                fragment,
                tokens.subrange(start, q),
            ) by {
                assert(!p(q - start));
            }
        },
        None => {
            assert forall|end: int| !is_first_fragment(
                reader,
                fragment,
                stop,
                tokens,
                start,
                end,
            ) by {
                if is_first_fragment(reader, fragment, stop, tokens, start, end) {
                    assert(p(end - start));
                }
            }
        },
    }
}

#[verifier::spinoff_prover]
proof fn lemma_expr_list<R: FragmentReader>(
    reader: R,
    tokens: Seq<Token>,
    i: int,
    part: usize,
    done: Seq<Run>,
)
    requires
        are_visible(tokens),
        tokens.len() <= usize::MAX,
        0 <= i <= tokens.len(),
    ensures
        expr_list(reader, before_token(tokens, i), part, done) matches Ok(list) ==> {
            let first = done.len() as int;
            &&& first <= list.len()
            &&& forall|j: int| 0 <= j < first ==> #[trigger] list[j] == done[j]
            &&& first == list.len() <==> i == tokens.len()
            &&& first < list.len() ==> list[first].start == i
            &&& first < list.len() ==> list.last().end + 1 >= tokens.len()
            &&& forall|j: int|
                first <= j < list.len() ==> is_first_fragment(
                    reader,
                    Fragment::Expression,
                    ',',
                    tokens,
                    (#[trigger] list[j]).start as int,
                    list[j].end as int,
                )
            &&& forall|j: int|
                first < j < list.len() ==> (#[trigger] list[j]).start == list[j - 1].end + 1
        },
    decreases tokens.len() - i,
{
    let cursor = before_token(tokens, i);
    lemma_visible(tokens, i, 0);
    let scope = Scope::Part { part };
    if i < tokens.len() {
        lemma_first_fragment(reader, Fragment::Expression, ',', tokens, i, scope);
        lemma_fragment(reader, Fragment::Expression, ',', cursor, scope);
        if let Ok(end) = fragment_step(reader, Fragment::Expression, ',', cursor, scope) {
            let e = end.at as int;
            let more = done.push(between(cursor, end));
            lemma_visible(tokens, e, 0);
            if e < tokens.len() {
                lemma_visible(tokens, e + 1, 0);
                lemma_expr_list(reader, tokens, e + 1, part, more);
                if let Ok(list) = expr_list(reader, cursor, part, done) {
                    let first = done.len() as int;
                    assert(expr_list(reader, before_token(tokens, e + 1), part, more) == Ok::<
                        Seq<Run>,
                        SyntaxFault,
                    >(list));
                    assert(list[first] == more[first]);
                    assert forall|j: int| 0 <= j < first implies #[trigger] list[j] == done[j] by {
                        assert(list[j] == more[j]);
                    }
                    assert forall|j: int| first < j < list.len() implies (
                    #[trigger] list[j]).start == list[j - 1].end + 1 by {}
                }
            }
        }
    }
}

/// Stages in a list are its expressions: each is the first at its place that a comma, or
/// the end, follows; the first begins at the beginning, each other one behind the comma
/// of the one before, and nothing but a comma follows the last.
pub proof fn law_stages_of_a_list_follow_one_another<R: FragmentReader>(
    reader: R,
    tokens: Seq<Token>,
    part: usize,
    list: Seq<Run>,
    j: int,
)
    requires
        are_visible(tokens),
        tokens.len() <= usize::MAX,
        expr_list(reader, feed::before(tokens), part, Seq::empty()) == Ok::<
            Seq<Run>,
            SyntaxFault,
        >(list),
    ensures
        list.len() == 0 <==> tokens.len() == 0,
        0 <= j < list.len() ==> is_first_fragment(
            reader,
            Fragment::Expression,
            ',',
            tokens,
            list[j].start as int,
            list[j].end as int,
        ),
        list.len() > 0 ==> list[0].start == 0,
        0 < j < list.len() ==> list[j].start == list[j - 1].end + 1,
        list.len() > 0 ==> list.last().end == tokens.len() || list.last().end + 1 == tokens.len(),
{
    lemma_visible(tokens, 0, 0);
    lemma_expr_list(reader, tokens, 0, part, Seq::empty());
    if list.len() > 0 {
        assert(is_first_fragment(
            reader,
            Fragment::Expression,
            ',',
            tokens,
            list[list.len() - 1].start as int,
            list[list.len() - 1].end as int,
        ));
    }
}

/// The stage is written at its place: its name, an equals sign, and the first expression
/// behind it that a comma, or the end, follows.
pub open spec fn is_written<R: FragmentReader>(
    reader: R,
    tokens: Seq<Token>,
    stage: StageModel,
) -> bool {
    let at = stage.name_at as int;
    &&& at + 1 < tokens.len()
    &&& is_name(reader, tokens[at])
    &&& tokens[at]->Ident_0@ == stage.name
    &&& is_punct(tokens[at + 1], '=')
    &&& stage.expr.start == at + 2
    &&& is_first_fragment(
        reader,
        Fragment::Expression,
        ',',
        tokens,
        at + 2,
        stage.expr.end as int,
    )
}

#[verifier::spinoff_prover]
proof fn lemma_stage_list<R: FragmentReader>(
    reader: R,
    tokens: Seq<Token>,
    i: int,
    part: usize,
    done: Seq<StageModel>,
)
    requires
        are_visible(tokens),
        tokens.len() <= usize::MAX,
        0 <= i <= tokens.len(),
    ensures
        stage_list(reader, before_token(tokens, i), part, done) matches Ok(list) ==> {
            let first = done.len() as int;
            &&& first <= list.len()
            &&& forall|j: int| 0 <= j < first ==> #[trigger] list[j] == done[j]
            &&& first == list.len() <==> i == tokens.len()
            &&& first < list.len() ==> list[first].name_at == i
            &&& first < list.len() ==> list.last().expr.end + 1 >= tokens.len()
            &&& forall|j: int|
                first <= j < list.len() ==> is_written(reader, tokens, #[trigger] list[j])
            &&& forall|j: int|
                first < j < list.len() ==> (#[trigger] list[j]).name_at == list[j - 1].expr.end + 1
        },
    decreases tokens.len() - i,
{
    let cursor = before_token(tokens, i);
    lemma_visible(tokens, i, 0);
    let scope = Scope::Part { part };
    if i < tokens.len() {
        if let Ok((stage, end)) = stage_step(reader, cursor, part) {
            lemma_visible(tokens, i + 1, 0);
            lemma_visible(tokens, i + 2, 0);
            lemma_first_fragment(reader, Fragment::Expression, ',', tokens, i + 2, scope);
            lemma_fragment(reader, Fragment::Expression, ',', before_token(tokens, i + 2), scope);
            let e = end.at as int;
            let more = done.push(stage);
            lemma_visible(tokens, e, 0);
            assert(is_written(reader, tokens, stage));
            if e < tokens.len() {
                lemma_visible(tokens, e + 1, 0);
                lemma_stage_list(reader, tokens, e + 1, part, more);
                if let Ok(list) = stage_list(reader, cursor, part, done) {
                    let first = done.len() as int;
                    assert(stage_list(reader, before_token(tokens, e + 1), part, more) == Ok::<
                        Seq<StageModel>,
                        SyntaxFault,
                    >(list));
                    assert(list[first] == more[first]);
                    assert forall|j: int| 0 <= j < first implies #[trigger] list[j] == done[j] by {
                        assert(list[j] == more[j]);
                    }
                    assert forall|j: int| first < j < list.len() implies (
                    #[trigger] list[j]).name_at == list[j - 1].expr.end + 1 by {}
                }
            }
        }
    }
}

/// Named stages are read one after another: each is a name, an equals sign and the first
/// expression that a comma, or the end, follows; the first begins at the beginning, each
/// other one behind the comma of the one before, and nothing but a comma follows the
/// last.
pub proof fn law_named_stages_follow_one_another<R: FragmentReader>(
    reader: R,
    tokens: Seq<Token>,
    part: usize,
    list: Seq<StageModel>,
    j: int,
)
    requires
        are_visible(tokens),
        tokens.len() <= usize::MAX,
        stage_list(reader, feed::before(tokens), part, Seq::empty()) == Ok::<
            Seq<StageModel>,
            SyntaxFault,
        >(list),
    ensures
        list.len() == 0 <==> tokens.len() == 0,
        0 <= j < list.len() ==> is_written(reader, tokens, list[j]),
        list.len() > 0 ==> list[0].name_at == 0,
        0 < j < list.len() ==> list[j].name_at == list[j - 1].expr.end + 1,
        list.len() > 0 ==> list.last().expr.end == tokens.len() || list.last().expr.end + 1
            == tokens.len(),
{
    lemma_visible(tokens, 0, 0);
    lemma_stage_list(reader, tokens, 0, part, Seq::empty());
    if list.len() > 0 {
        assert(is_written(reader, tokens, list[list.len() - 1]));
    }
}

/// What a line of the body that gives a type does: `type`, one of the three names, an
/// equals sign, and the first type that a semicolon follows. That type becomes the one
/// of its name, and nothing else of the body changes.
#[verifier::spinoff_prover]
pub proof fn law_type_line_sets_its_type<R: FragmentReader>(
    reader: R,
    tokens: Seq<Token>,
    i: int,
    body: BodyModel,
    more: BodyModel,
    next: Cursor,
)
    requires
        are_visible(tokens),
        tokens.len() <= usize::MAX,
        0 <= i < tokens.len(),
        tokens[i] is Ident && tokens[i]->Ident_0@ == "type"@,
        section_step(reader, before_token(tokens, i), body) == Ok::<
            (BodyModel, Cursor),
            SyntaxFault,
        >((more, next)),
    ensures
        ({
            let end = next.at - 1;
            let run = Run { start: (i + 3) as usize, end: end as usize };
            let name = tokens[i + 1]->Ident_0@;
            &&& i + 3 <= end < tokens.len()
            &&& next == before_token(tokens, end + 1)
            &&& is_name(reader, tokens[i + 1])
            &&& is_punct(tokens[i + 2], '=')
            &&& is_punct(tokens[end], ';')
            &&& is_first_fragment(reader, Fragment::Type, ';', tokens, i + 3, end)
            &&& name == "Input"@ ==> more == (BodyModel { input: Some(run), ..body })
            &&& name == "Output"@ && name != "Input"@ ==> more == (BodyModel {
                output: Some(run),
                ..body
            })
            &&& name == "Error"@ && name != "Input"@ && name != "Output"@ ==> more == (BodyModel {
                error: Some(run),
                ..body
            })
            &&& name == "Input"@ || name == "Output"@ || name == "Error"@
        }),
{
    lemma_visible(tokens, i, 0);
    lemma_visible(tokens, i + 1, 0);
    if i + 1 < tokens.len() {
        lemma_visible(tokens, i + 2, 0);
        if i + 2 < tokens.len() {
            lemma_visible(tokens, i + 3, 0);
            lemma_first_fragment(reader, Fragment::Type, ';', tokens, i + 3, Scope::Body);
            if let Ok(end) = fragment_step(
                reader,
                Fragment::Type,
                ';',
                before_token(tokens, i + 3),
                Scope::Body,
            ) {
                lemma_visible(tokens, end.at as int, 0);
            }
        }
    }
}

/// What an assignment of the body does: a name, an equals sign, a value and a semicolon.
/// `config` takes the first expression that a semicolon follows; `stages` takes a list in
/// brackets or named stages in braces; `graph` takes edges in braces. Nothing else of the
/// body changes, and no other name is taken.
#[verifier::spinoff_prover]
pub proof fn law_assignment_sets_its_part<R: FragmentReader>(
    reader: R,
    tokens: Seq<Token>,
    i: int,
    body: BodyModel,
    more: BodyModel,
    next: Cursor,
)
    requires
        are_visible(tokens),
        tokens.len() <= usize::MAX,
        0 <= i < tokens.len(),
        !(tokens[i] is Ident && tokens[i]->Ident_0@ == "type"@),
        section_step(reader, before_token(tokens, i), body) == Ok::<
            (BodyModel, Cursor),
            SyntaxFault,
        >((more, next)),
    ensures
        ({
            let end = next.at - 1;
            let name = tokens[i]->Ident_0@;
            let part = (i + 2) as usize;
            let value = tokens[i + 2];
            let within = feed::before(value->Group_1@);
            &&& i + 2 <= end < tokens.len()
            &&& next == before_token(tokens, end + 1)
            &&& is_name(reader, tokens[i])
            &&& is_punct(tokens[i + 1], '=')
            &&& is_punct(tokens[end], ';')
            &&& name == "config"@ || name == "stages"@ || name == "graph"@
            &&& name == "config"@ ==> {
                &&& is_first_fragment(reader, Fragment::Expression, ';', tokens, i + 2, end)
                &&& more == (BodyModel {
                    config: Some(Run { start: part, end: end as usize }),
                    ..body
                })
            }
            &&& name == "stages"@ && name != "config"@ ==> {
                &&& end == i + 3
                &&& value is Group
                &&& value->Group_0 == Delimiter::Bracket ==> {
                    let exprs = expr_list(reader, within, part, Seq::empty());
                    exprs is Ok && more == (BodyModel {
                        stages: Some(StagesModel::Linear { part, exprs: exprs->Ok_0 }),
                        ..body
                    })
                }
                &&& value->Group_0 != Delimiter::Bracket ==> {
                    let stages = stage_list(reader, within, part, Seq::empty());
                    value->Group_0 == Delimiter::Brace && stages is Ok && more == (BodyModel {
                        stages: Some(StagesModel::Named { part, stages: stages->Ok_0 }),
                        ..body
                    })
                }
            }
            &&& name == "graph"@ && name != "config"@ && name != "stages"@ ==> {
                let edges = edge_list(reader, within, part, Seq::empty());
                &&& end == i + 3
                &&& value is Group && value->Group_0 == Delimiter::Brace
                &&& edges is Ok
                &&& more == (BodyModel { graph: Some(edges->Ok_0), ..body })
            }
        }),
{
    lemma_visible(tokens, i, 0);
    lemma_visible(tokens, i + 1, 0);
    if i + 1 < tokens.len() {
        lemma_visible(tokens, i + 2, 0);
        lemma_first_fragment(reader, Fragment::Expression, ';', tokens, i + 2, Scope::Body);
        if let Ok(end) = fragment_step(
            reader,
            Fragment::Expression,
            ';',
            before_token(tokens, i + 2),
            Scope::Body,
        ) {
            lemma_visible(tokens, end.at as int, 0);
        }
        if i + 2 < tokens.len() {
            lemma_visible(tokens, i + 3, 0);
        }
    }
}

/// The lines of a body are read one after another to its end, each on top of what the
/// lines before it said.
#[verifier::spinoff_prover]
pub proof fn law_body_is_read_line_by_line<R: FragmentReader>(
    reader: R,
    tokens: Seq<Token>,
    i: int,
    body: BodyModel,
)
    requires
        are_visible(tokens),
        tokens.len() <= usize::MAX,
        0 <= i <= tokens.len(),
    ensures
        i == tokens.len() ==> body_from(reader, before_token(tokens, i), body) == Ok::<
            BodyModel,
            SyntaxFault,
        >(body),
        i < tokens.len() ==> match section_step(reader, before_token(tokens, i), body) {
            Ok((more, next)) => next.at > i && body_from(reader, before_token(tokens, i), body)
                == body_from(reader, before_token(tokens, next.at as int), more),
            Err(wrong) => body_from(reader, before_token(tokens, i), body) == Err::<
                BodyModel,
                SyntaxFault,
            >(wrong),
        },
{
    lemma_visible(tokens, i, 0);
    if i < tokens.len() {
        if let Ok((more, next)) = section_step(reader, before_token(tokens, i), body) {
            if tokens[i] is Ident && tokens[i]->Ident_0@ == "type"@ {
                law_type_line_sets_its_type(reader, tokens, i, body, more, next);
            } else {
                law_assignment_sets_its_part(reader, tokens, i, body, more, next);
            }
            lemma_visible(tokens, next.at as int, 0);
        }
    }
}

proof fn lemma_one_first_fragment<R: FragmentReader>(
    reader: R,
    fragment: Fragment,
    stop: char,
    tokens: Seq<Token>,
    start: int,
    a: int,
    b: int,
)
    requires
        is_first_fragment(reader, fragment, stop, tokens, start, a),
        is_first_fragment(reader, fragment, stop, tokens, start, b),
    ensures
        a == b,
{
    if a < b {
        assert(is_punct(tokens[a], stop));
    } else if b < a {
        assert(is_punct(tokens[b], stop));
    }
}

proof fn lemma_fragment_is_found<R: FragmentReader>(
    reader: R,
    fragment: Fragment,
    stop: char,
    tokens: Seq<Token>,
    start: int,
    end: int,
    scope: Scope,
)
    requires
        are_visible(tokens),
        0 <= start <= tokens.len(),
        is_first_fragment(reader, fragment, stop, tokens, start, end),
    ensures
        fragment_step(reader, fragment, stop, before_token(tokens, start), scope) == Ok::<
            Cursor,
            SyntaxFault,
        >(before_token(tokens, end)),
{
    lemma_first_fragment(reader, fragment, stop, tokens, start, scope);
    if let Ok(found) = fragment_step(
        reader,
        fragment,
        stop,
        before_token(tokens, start),
        scope,
    ) {
        lemma_one_first_fragment(reader, fragment, stop, tokens, start, end, found.at as int);
    }
}

/// The stages are written one after another from token `i` to the end.
pub open spec fn are_written<R: FragmentReader>(
    reader: R,
    tokens: Seq<Token>,
    i: int,
    list: Seq<StageModel>,
) -> bool {
    &&& list.len() == 0 <==> i == tokens.len()
    &&& list.len() > 0 ==> list[0].name_at == i
    &&& list.len() > 0 ==> list.last().expr.end == tokens.len() || list.last().expr.end + 1
        == tokens.len()
    &&& forall|j: int| 0 <= j < list.len() ==> is_written(reader, tokens, #[trigger] list[j])
    &&& forall|j: int|
        0 < j < list.len() ==> (#[trigger] list[j]).name_at == list[j - 1].expr.end + 1
}

proof fn lemma_written_stage<R: FragmentReader>(
    reader: R,
    tokens: Seq<Token>,
    part: usize,
    stage: StageModel,
)
    requires
        are_visible(tokens),
        tokens.len() <= usize::MAX,
        is_written(reader, tokens, stage),
    ensures
        stage_step(reader, before_token(tokens, stage.name_at as int), part) == Ok::<
            (StageModel, Cursor),
            SyntaxFault,
        >((stage, before_token(tokens, stage.expr.end as int))),
{
    let i = stage.name_at as int;
    let e = stage.expr.end as int;
    lemma_visible(tokens, i, 0);
    lemma_visible(tokens, i + 1, 0);
    lemma_visible(tokens, i + 2, 0);
    lemma_visible(tokens, e, 0);
    lemma_fragment_is_found(
        reader,
        Fragment::Expression,
        ',',
        tokens,
        i + 2,
        e,
        Scope::Part { part },
    );
}

proof fn lemma_rest_is_written<R: FragmentReader>(
    reader: R,
    tokens: Seq<Token>,
    i: int,
    list: Seq<StageModel>,
)
    requires
        list.len() > 0,
        are_written(reader, tokens, i, list),
    ensures
        is_written(reader, tokens, list[0]),
        list[0].expr.end == tokens.len() ==> list.len() == 1,
        list[0].expr.end < tokens.len() ==> are_written(
            reader,
            tokens,
            list[0].expr.end + 1,
            list.skip(1),
        ),
{
    let e = list[0].expr.end as int;
    let rest = list.skip(1);
    if list.len() > 1 {
        assert(list[1].name_at == e + 1);
        assert(is_written(reader, tokens, list[1]));
        assert(rest.last() == list.last());
        assert(rest[0] == list[1]);
    }
    if e < tokens.len() {
        assert forall|j: int| 0 <= j < rest.len() implies is_written(
            reader,
            tokens,
            #[trigger] rest[j],
        ) by {
            assert(rest[j] == list[j + 1]);
        }
        assert forall|j: int| 0 < j < rest.len() implies (#[trigger] rest[j]).name_at
            == rest[j - 1].expr.end + 1 by {
            assert(rest[j] == list[j + 1] && rest[j - 1] == list[j]);
        }
    }
}

#[verifier::spinoff_prover]
proof fn lemma_written_stages<R: FragmentReader>(
    reader: R,
    tokens: Seq<Token>,
    i: int,
    part: usize,
    done: Seq<StageModel>,
    list: Seq<StageModel>,
)
    requires
        are_visible(tokens),
        tokens.len() <= usize::MAX,
        0 <= i <= tokens.len(),
        are_written(reader, tokens, i, list),
    ensures
        stage_list(reader, before_token(tokens, i), part, done) == Ok::<
            Seq<StageModel>,
            SyntaxFault,
        >(done + list),
    decreases list.len(),
{
    lemma_visible(tokens, i, 0);
    if list.len() == 0 {
        assert(done + list =~= done);
    } else {
        let stage = list[0];
        let e = stage.expr.end as int;
        lemma_rest_is_written(reader, tokens, i, list);
        lemma_written_stage(reader, tokens, part, stage);
        lemma_visible(tokens, e, 0);
        let more = done.push(stage);
        if e == tokens.len() {
            assert(done + list =~= more);
        } else {
            lemma_visible(tokens, e + 1, 0);
            lemma_written_stages(reader, tokens, e + 1, part, more, list.skip(1));
            assert(more + list.skip(1) =~= done + list);
        }
    }
}

/// Named stages that are written one after another are read as they are written.
pub proof fn law_written_stages_are_read<R: FragmentReader>(
    reader: R,
    tokens: Seq<Token>,
    part: usize,
    list: Seq<StageModel>,
)
    requires
        are_visible(tokens),
        tokens.len() <= usize::MAX,
        are_written(reader, tokens, 0, list),
    ensures
        stage_list(reader, feed::before(tokens), part, Seq::empty()) == Ok::<
            Seq<StageModel>,
            SyntaxFault,
        >(list),
{
    lemma_visible(tokens, 0, 0);
    lemma_written_stages(reader, tokens, 0, part, Seq::empty(), list);
    assert(Seq::<StageModel>::empty() + list =~= list);
}

/// The expressions stand one after another from token `i` to the end.
pub open spec fn are_exprs<R: FragmentReader>(
    reader: R,
    tokens: Seq<Token>,
    i: int,
    list: Seq<Run>,
) -> bool {
    &&& list.len() == 0 <==> i == tokens.len()
    &&& list.len() > 0 ==> list[0].start == i
    &&& list.len() > 0 ==> list.last().end == tokens.len() || list.last().end + 1 == tokens.len()
    &&& forall|j: int|
        0 <= j < list.len() ==> (#[trigger] list[j]).start < tokens.len() && is_first_fragment(
            reader,
            Fragment::Expression,
            ',',
            tokens,
            list[j].start as int,
            list[j].end as int,
        )
    &&& forall|j: int| 0 < j < list.len() ==> (#[trigger] list[j]).start == list[j - 1].end + 1
}

#[verifier::spinoff_prover]
proof fn lemma_exprs_are_read<R: FragmentReader>(
    reader: R,
    tokens: Seq<Token>,
    i: int,
    part: usize,
    done: Seq<Run>,
    list: Seq<Run>,
)
    requires
        are_visible(tokens),
        tokens.len() <= usize::MAX,
        0 <= i <= tokens.len(),
        are_exprs(reader, tokens, i, list),
    ensures
        expr_list(reader, before_token(tokens, i), part, done) == Ok::<Seq<Run>, SyntaxFault>(
            done + list,
        ),
    decreases list.len(),
{
    let cursor = before_token(tokens, i);
    lemma_visible(tokens, i, 0);
    if list.len() == 0 {
        assert(done + list =~= done);
    } else {
        let run = list[0];
        let e = run.end as int;
        lemma_visible(tokens, e, 0);
        lemma_fragment_is_found(
            reader,
            Fragment::Expression,
            ',',
            tokens,
            i,
            e,
            Scope::Part { part },
        );
        let more = done.push(run);
        let rest = list.skip(1);
        if e == tokens.len() {
            if list.len() > 1 {
                assert(list[1].start == e + 1);
            }
            assert(done + list =~= more);
        } else {
            lemma_visible(tokens, e + 1, 0);
            assert(are_exprs(reader, tokens, e + 1, rest)) by {
                if list.len() > 1 {
                    assert(list[1].start == e + 1);
                    assert(rest.last() == list.last());
                }
                assert forall|j: int| 0 <= j < rest.len() implies (#[trigger] rest[j]).start
                    < tokens.len() && is_first_fragment(
                    reader,
                    Fragment::Expression,
                    ',',
                    tokens,
                    rest[j].start as int,
                    rest[j].end as int,
                ) by {
                    assert(rest[j] == list[j + 1]);
                }
                assert forall|j: int| 0 < j < rest.len() implies (#[trigger] rest[j]).start
                    == rest[j - 1].end + 1 by {
                    assert(rest[j] == list[j + 1] && rest[j - 1] == list[j]);
                }
            }
            lemma_exprs_are_read(reader, tokens, e + 1, part, more, rest);
            assert(more + rest =~= done + list);
        }
    }
}

/// Expressions that stand one after another are read as they stand.
pub proof fn law_listed_stages_are_read<R: FragmentReader>(
    reader: R,
    tokens: Seq<Token>,
    part: usize,
    list: Seq<Run>,
)
    requires
        are_visible(tokens),
        tokens.len() <= usize::MAX,
        are_exprs(reader, tokens, 0, list),
    ensures
        expr_list(reader, feed::before(tokens), part, Seq::empty()) == Ok::<
            Seq<Run>,
            SyntaxFault,
        >(list),
{
    lemma_visible(tokens, 0, 0);
    lemma_exprs_are_read(reader, tokens, 0, part, Seq::empty(), list);
    assert(Seq::<Run>::empty() + list =~= list);
}

/// A line that gives a type is read wherever it stands and whatever the body said before.
pub proof fn law_written_type_line_is_read<R: FragmentReader>(
    reader: R,
    tokens: Seq<Token>,
    i: int,
    end: int,
    body: BodyModel,
)
    requires
        are_visible(tokens),
        tokens.len() <= usize::MAX,
        0 <= i,
        i + 3 <= end < tokens.len(),
        tokens[i] is Ident && tokens[i]->Ident_0@ == "type"@,
        is_name(reader, tokens[i + 1]),
        tokens[i + 1]->Ident_0@ == "Input"@ || tokens[i + 1]->Ident_0@ == "Output"@
            || tokens[i + 1]->Ident_0@ == "Error"@,
        is_punct(tokens[i + 2], '='),
        is_first_fragment(reader, Fragment::Type, ';', tokens, i + 3, end),
    ensures
        section_step(reader, before_token(tokens, i), body) is Ok,
        section_step(reader, before_token(tokens, i), body)->Ok_0.1 == before_token(
            tokens,
            end + 1,
        ),
{
    lemma_visible(tokens, i, 0);
    lemma_visible(tokens, i + 1, 0);
    lemma_visible(tokens, i + 2, 0);
    lemma_visible(tokens, i + 3, 0);
    lemma_visible(tokens, end, 0);
    lemma_fragment_is_found(reader, Fragment::Type, ';', tokens, i + 3, end, Scope::Body);
}

/// An assignment of the configuration, of the stages or of the graph is read wherever it
/// stands and whatever the body said before, as long as its value can be read.
#[verifier::spinoff_prover]
pub proof fn law_written_assignment_is_read<R: FragmentReader>(
    reader: R,
    tokens: Seq<Token>,
    i: int,
    end: int,
    body: BodyModel,
)
    requires
        are_visible(tokens),
        tokens.len() <= usize::MAX,
        0 <= i,
        i + 2 <= end < tokens.len(),
        is_name(reader, tokens[i]),
        tokens[i]->Ident_0@ != "type"@,
        is_punct(tokens[i + 1], '='),
        is_punct(tokens[end], ';'),
        ({
            let name = tokens[i]->Ident_0@;
            let value = tokens[i + 2];
            let within = feed::before(value->Group_1@);
            let part = (i + 2) as usize;
            ||| name == "config"@ && is_first_fragment(
                reader,
                Fragment::Expression,
                ';',
                tokens,
                i + 2,
                end,
            )
            ||| name == "stages"@ && name != "config"@ && end == i + 3 && value is Group
                && value->Group_0 == Delimiter::Bracket && expr_list(
                reader,
                within,
                part,
                Seq::empty(),
            ) is Ok
            ||| name == "stages"@ && name != "config"@ && end == i + 3 && value is Group
                && value->Group_0 == Delimiter::Brace && stage_list(
                reader,
                within,
                part,
                Seq::empty(),
            ) is Ok
            ||| name == "graph"@ && name != "config"@ && name != "stages"@ && end == i + 3 && value
                is Group && value->Group_0 == Delimiter::Brace && edge_list(
                reader,
                within,
                part,
                Seq::empty(),
            ) is Ok
        }),
    ensures
        section_step(reader, before_token(tokens, i), body) is Ok,
        section_step(reader, before_token(tokens, i), body)->Ok_0.1 == before_token(
            tokens,
            end + 1,
        ),
{
    lemma_visible(tokens, i, 0);
    lemma_visible(tokens, i + 1, 0);
    lemma_visible(tokens, i + 2, 0);
    lemma_visible(tokens, i + 3, 0);
    lemma_visible(tokens, end, 0);
    if tokens[i]->Ident_0@ == "config"@ {
        lemma_fragment_is_found(reader, Fragment::Expression, ';', tokens, i + 2, end, Scope::Body);
    }
}

/// A declaration that is read is a visibility, the first `struct` of the tokens, a name
/// and a body in braces, and nothing behind it; it tells where each of them stands, and
/// its parts are those that the body says.
#[verifier::spinoff_prover]
pub proof fn law_read_declaration_is_written_so<R: FragmentReader>(
    reader: R,
    tokens: Vec<Token>,
    input: PipelineInput,
    q: int,
)
    requires
        are_visible(tokens@),
        tokens@.len() <= usize::MAX,
        call_ensures(
            parse_pipeline::<R>,
            (&reader, &tokens),
            Ok::<PipelineInput, SyntaxFault>(input),
        ),
    ensures
        ({
            let p = input.visibility.end as int;
            let group = tokens@[p + 2];
            let body = body_from(reader, feed::before(group->Group_1@), empty_body());
            &&& tokens@.len() == p + 3
            &&& input.visibility.start == 0
            &&& reader.reads(Fragment::Visibility, tokens@.take(p))
            &&& tokens@[p] is Ident && tokens@[p]->Ident_0@ == "struct"@
            &&& 0 <= q < p ==> !(tokens@[q] is Ident && tokens@[q]->Ident_0@ == "struct"@)
            &&& input.name_at == p + 1
            &&& is_name(reader, tokens@[p + 1])
            &&& input.body_at == p + 2
            &&& group is Group && group->Group_0 == Delimiter::Brace
            &&& body is Ok
            &&& body->Ok_0.input == Some(input.input)
            &&& body->Ok_0.output == Some(input.output)
            &&& body->Ok_0.error == Some(input.error)
            &&& body->Ok_0.config == Some(input.config)
            &&& body->Ok_0.stages == Some(stages_model(input.stages))
            &&& body->Ok_0.graph == graph_model(input.graph)
        }),
{
    lemma_struct_word(reader, tokens@);
    let p = input.visibility.end as int;
    lemma_visible(tokens@, 0, 0);
    let word = struct_step(reader, declaration_start(tokens@))->Ok_0;
    let at = word.at as int;
    lemma_visible(tokens@, at, 0);
    lemma_visible(tokens@, at + 1, 0);
    if at + 1 < tokens@.len() {
        lemma_visible(tokens@, at + 2, 0);
        if at + 2 < tokens@.len() {
            lemma_visible(tokens@, at + 3, 0);
        }
    }
}

#[verifier::spinoff_prover]
proof fn lemma_struct_word<R: FragmentReader>(reader: R, tokens: Seq<Token>)
    requires
        are_visible(tokens),
    ensures
        declaration_start(tokens) == before_token(tokens, 0),
        struct_step(reader, declaration_start(tokens)) matches Ok(word) ==> {
            let p = word.at as int;
            &&& word == before_token(tokens, p)
            &&& p < tokens.len()
            &&& tokens[p] is Ident && tokens[p]->Ident_0@ == "struct"@
            &&& forall|q: int|
                0 <= q < p ==> !((#[trigger] tokens[q]) is Ident && tokens[q]->Ident_0@
                    == "struct"@)
            &&& reader.reads(Fragment::Visibility, tokens.take(p))
        },
        struct_step(reader, declaration_start(tokens)) matches Err(wrong) ==> {
            &&& wrong.wanted is StructWord && wrong.scope is Whole && wrong.at == 0
            &&& wrong.at_end == (tokens.len() == 0)
            &&& forall|p: int|
                0 <= p < tokens.len() && (#[trigger] tokens[p]) is Ident && tokens[p]->Ident_0@
                    == "struct"@ && (forall|q: int|
                    0 <= q < p ==> !((#[trigger] tokens[q]) is Ident && tokens[q]->Ident_0@
                        == "struct"@)) ==> !reader.reads(Fragment::Visibility, tokens.take(p))
        },
{
    let start = declaration_start(tokens);
    lemma_visible(tokens, 0, 0);
    if tokens.len() > 0 {
        assert(!(tokens[0] matches Token::Group(Delimiter::Invisible, _)));
    }
    assert(start == before_token(tokens, 0));
    let p = is_struct_word(start);
    let n = start.rest.len() as int;
    search::lemma_first_where_holds(p, 0, n);
    assert forall|k: int| 0 <= k < tokens.len() implies #[trigger] p(k) == (tokens[k] is Ident
        && tokens[k]->Ident_0@ == "struct"@) by {
        lemma_visible(tokens, 0, k);
        lemma_visible(tokens, k, 0);
    }
    if let Some(found) = search::first_where(p, 0, n) {
        lemma_visible(tokens, 0, found);
        assert(p(found));
        assert(start.rest.take(found) =~= tokens.take(found));
        assert forall|q: int| 0 <= q < found implies !((#[trigger] tokens[q]) is Ident
            && tokens[q]->Ident_0@ == "struct"@) by {
            assert(!p(q));
        }
        if struct_step(reader, start) is Err {
            assert forall|k: int|
                0 <= k < tokens.len() && (#[trigger] tokens[k]) is Ident && tokens[k]->Ident_0@
                    == "struct"@ && (forall|q: int|
                    0 <= q < k ==> !((#[trigger] tokens[q]) is Ident && tokens[q]->Ident_0@
                        == "struct"@)) implies !reader.reads(
                Fragment::Visibility,
                tokens.take(k),
            ) by {
                assert(p(k));
                if k > found {
                    assert(tokens[found] is Ident);
                }
                assert(k == found);
            }
        }
    } else {
        assert forall|k: int| 0 <= k < tokens.len() implies !((#[trigger] tokens[k]) is Ident
            && tokens[k]->Ident_0@ == "struct"@) by {
            assert(!p(k));
        }
    }
}

/// A declaration that is written so is read: where the body says all that it has to, there
/// is no fault; where it lacks something, the first thing that it lacks is told, of the
/// three types, the configuration and the stages, in this order.
#[verifier::spinoff_prover]
pub proof fn law_written_declaration_is_read<R: FragmentReader>(
    reader: R,
    tokens: Vec<Token>,
    read: Result<PipelineInput, SyntaxFault>,
    p: int,
    body: BodyModel,
)
    requires
        are_visible(tokens@),
        tokens@.len() <= usize::MAX,
        call_ensures(parse_pipeline::<R>, (&reader, &tokens), read),
        0 <= p,
        tokens@.len() == p + 3,
        reader.reads(Fragment::Visibility, tokens@.take(p)),
        tokens@[p] is Ident && tokens@[p]->Ident_0@ == "struct"@,
        forall|q: int|
            0 <= q < p ==> !((#[trigger] tokens@[q]) is Ident && tokens@[q]->Ident_0@
                == "struct"@),
        is_name(reader, tokens@[p + 1]),
        tokens@[p + 2] is Group && tokens@[p + 2]->Group_0 == Delimiter::Brace,
        body_from(reader, feed::before(tokens@[p + 2]->Group_1@), empty_body()) == Ok::<
            BodyModel,
            SyntaxFault,
        >(body),
    ensures
        read is Ok <==> body.input is Some && body.output is Some && body.error is Some
            && body.config is Some && body.stages is Some,
        read is Err ==> read->Err_0.scope is Body && read->Err_0.at_end,
        read is Err && are_visible(tokens@[p + 2]->Group_1@) && tokens@[p + 2]->Group_1@.len()
            <= usize::MAX ==> read->Err_0.at == tokens@[p + 2]->Group_1@.len(),
        body.input is None ==> read->Err_0.wanted is InputType,
        body.input is Some && body.output is None ==> read->Err_0.wanted is OutputType,
        body.input is Some && body.output is Some && body.error is None ==> read->Err_0.wanted
            is ErrorType,
        body.input is Some && body.output is Some && body.error is Some && body.config is None
            ==> read->Err_0.wanted is Config,
        body.input is Some && body.output is Some && body.error is Some && body.config is Some
            && body.stages is None ==> read->Err_0.wanted is Stages,
{
    lemma_struct_word(reader, tokens@);
    assert(tokens@[p] is Ident);
    if let Ok(word) = struct_step(reader, declaration_start(tokens@)) {
        let at = word.at as int;
        if at < p {
            assert(tokens@[at] is Ident);
        }
        assert(at == p);
    }
    lemma_visible(tokens@, 0, 0);
    lemma_visible(tokens@, p, 0);
    lemma_visible(tokens@, p + 1, 0);
    lemma_visible(tokens@, p + 2, 0);
    lemma_visible(tokens@, p + 3, 0);
    if are_visible(tokens@[p + 2]->Group_1@) {
        lemma_visible_width(tokens@[p + 2]->Group_1@);
    }
}

/// A fault is told where it is: before the token that is not the wanted one, or at the
/// end where none is left.
pub proof fn law_fault_is_told_where_it_is<R: FragmentReader>(
    reader: R,
    tokens: Seq<Token>,
    i: int,
    scope: Scope,
    mark: char,
)
    requires
        are_visible(tokens),
        tokens.len() <= usize::MAX,
        0 <= i <= tokens.len(),
    ensures
        ({
            let here = before_token(tokens, i);
            let next = Ok::<Cursor, SyntaxFault>(before_token(tokens, i + 1));
            let told = |wanted: Wanted|
                Err::<Cursor, SyntaxFault>(
                    SyntaxFault { scope, at: i as usize, at_end: i == tokens.len(), wanted },
                );
            let is_there = i < tokens.len();
            &&& mark_step(here, scope, mark) == if is_there && is_punct(tokens[i], mark) {
                next
            } else {
                told(Wanted::Mark { mark })
            }
            &&& name_step(reader, here, scope) == if is_there && is_name(reader, tokens[i]) {
                next
            } else if is_there && tokens[i] is Ident {
                told(Wanted::NameNotKeyword)
            } else {
                told(Wanted::Name)
            }
            &&& braces_step(here, scope) == if is_there && tokens[i] is Group && tokens[i]->Group_0
                == Delimiter::Brace {
                next
            } else {
                told(Wanted::Braces)
            }
            &&& arrow_step(here, scope) == if i + 1 < tokens.len() && is_punct(tokens[i], '-')
                && tokens[i]->joint && is_punct(tokens[i + 1], '>') {
                Ok(before_token(tokens, i + 2))
            } else {
                told(Wanted::Arrow)
            }
        }),
{
    lemma_visible(tokens, i, 0);
    if i < tokens.len() {
        lemma_visible(tokens, i + 1, 0);
    }
}

/// A missing fragment is told where it was to begin, by what it was to be.
pub proof fn law_missing_fragment_is_told<R: FragmentReader>(
    reader: R,
    tokens: Seq<Token>,
    i: int,
    scope: Scope,
    stop: char,
)
    requires
        are_visible(tokens),
        tokens.len() <= usize::MAX,
        0 <= i <= tokens.len(),
        forall|end: int| !is_first_fragment(reader, Fragment::Type, stop, tokens, i, end),
        forall|end: int| !is_first_fragment(reader, Fragment::Expression, stop, tokens, i, end),
    ensures
        fragment_step(reader, Fragment::Type, stop, before_token(tokens, i), scope) == Err::<
            Cursor,
            SyntaxFault,
        >(
            SyntaxFault {
                scope,
                at: i as usize,
                at_end: i == tokens.len(),
                wanted: Wanted::TypeFragment,
            },
        ),
        fragment_step(reader, Fragment::Expression, stop, before_token(tokens, i), scope) == Err::<
            Cursor,
            SyntaxFault,
        >(
            SyntaxFault {
                scope,
                at: i as usize,
                at_end: i == tokens.len(),
                wanted: Wanted::ExpressionFragment,
            },
        ),
{
    lemma_visible(tokens, i, 0);
    lemma_first_fragment(reader, Fragment::Type, stop, tokens, i, scope);
    lemma_first_fragment(reader, Fragment::Expression, stop, tokens, i, scope);
}

/// Stages and graph go together so: a list stands alone, and names and edges need each
/// other.
pub proof fn law_shape_is_told(input: PipelineInput, shape: Shape, fault: Option<String>)
    requires
        call_ensures(PipelineInput::shape, (&input,), shape),
        call_ensures(Shape::fault, (shape,), fault),
    ensures
        fault is None <==> (input.stages is Linear && input.graph is None) || (input.stages is Named
            && input.graph is Some),
        shape is Chain <==> input.stages is Linear && input.graph is None,
        shape is Graph <==> input.stages is Named && input.graph is Some,
        input.stages is Linear && input.graph is Some ==> fault->0@
            == "`graph = ...` requires named `stages = { ... };`"@,
        input.stages is Named && input.graph is None ==> fault->0@
            == "named stages require `graph = { ... };`"@,
{
}

/// A fault is worded by what was expected; at the end of the tokens that is said first
/// where a word, a name or a group was expected.
pub proof fn law_fault_is_worded(fault: SyntaxFault, found: &str, text: String)
    requires
        call_ensures(SyntaxFault::message, (fault, found), text),
    ensures
        ({
            let end = if fault.at_end {
                "unexpected end of input, "@
            } else {
                Seq::empty()
            };
            &&& fault.wanted is StructWord ==> text@ == end + "expected `struct`"@
            &&& fault.wanted is Name ==> text@ == end + "expected identifier"@
            &&& fault.wanted is Braces ==> text@ == end + "expected curly braces"@
            &&& fault.wanted is Brackets ==> text@ == end + "expected square brackets"@
            &&& fault.wanted is NameNotKeyword ==> text@ == "expected identifier, found keyword `"@
                + found@ + "`"@
            &&& fault.wanted is Mark ==> text@ == "expected `"@ + seq![fault.wanted->mark] + "`"@
            &&& fault.wanted is Arrow ==> text@ == "expected `->`"@
            &&& fault.wanted is TypeFragment ==> text@ == "expected type"@
            &&& fault.wanted is ExpressionFragment ==> text@ == "expected expression"@
            &&& fault.wanted is KnownType ==> text@ == "expected Input, Output, or Error"@
            &&& fault.wanted is KnownAssignment ==> text@
                == "expected config, stages, or graph assignment"@
            &&& fault.wanted is InputType ==> text@ == "missing `type Input = ...;`"@
            &&& fault.wanted is OutputType ==> text@ == "missing `type Output = ...;`"@
            &&& fault.wanted is ErrorType ==> text@ == "missing `type Error = ...;`"@
            &&& fault.wanted is Config ==> text@ == "missing `config = ...;`"@
            &&& fault.wanted is Stages ==> text@ == "missing `stages = ...;`"@
            &&& fault.wanted is Nothing ==> text@ == "unexpected token"@
        }),
{
    assert(Seq::<char>::empty() + "expected `struct`"@ =~= "expected `struct`"@);
    assert(Seq::<char>::empty() + "expected identifier"@ =~= "expected identifier"@);
    assert(Seq::<char>::empty() + "expected curly braces"@ =~= "expected curly braces"@);
    assert(Seq::<char>::empty() + "expected square brackets"@ =~= "expected square brackets"@);
}

/// An invisible group at the beginning of a declaration is opened where it holds something,
/// and is left where it is empty; nothing was passed then.
pub proof fn law_leading_group_is_opened(group: Vec<Token>, rest: Seq<Token>)
    ensures
        ({
            let tokens = seq![Token::Group(Delimiter::Invisible, group)] + rest;
            let start = declaration_start(tokens);
            &&& start.at == 0
            &&& group@.len() == 0 ==> start.rest == tokens
            &&& group@.len() > 0 ==> start.rest == feed::opened(tokens)
            &&& group@.len() > 0 && are_visible(group@) ==> start.rest == group@ + rest
        }),
{
    let tokens = seq![Token::Group(Delimiter::Invisible, group)] + rest;
    assert(tokens.subrange(1, tokens.len() as int) =~= rest);
    assert(tokens[0] == Token::Group(Delimiter::Invisible, group));
    if group@.len() > 0 && are_visible(group@) {
        assert(!(group@[0] matches Token::Group(Delimiter::Invisible, _)));
        assert(feed::opened(group@) == group@);
    }
}

/// A type of an unknown name is told at its name, once its whole line was read, and an
/// assignment of an unknown name at that name.
pub proof fn law_unknown_name_is_told<R: FragmentReader>(
    reader: R,
    tokens: Seq<Token>,
    i: int,
    end: int,
    body: BodyModel,
)
    requires
        are_visible(tokens),
        tokens.len() <= usize::MAX,
        0 <= i,
        i + 3 <= end < tokens.len(),
    ensures
        ({
            let read = section_step(reader, before_token(tokens, i), body);
            let first = tokens[i]->Ident_0@;
            let second = tokens[i + 1]->Ident_0@;
            &&& tokens[i] is Ident && first == "type"@ && is_name(reader, tokens[i + 1]) && is_punct(
                tokens[i + 2],
                '=',
            ) && is_first_fragment(reader, Fragment::Type, ';', tokens, i + 3, end) && second
                != "Input"@ && second != "Output"@ && second != "Error"@ ==> read == Err::<
                (BodyModel, Cursor),
                SyntaxFault,
            >(
                SyntaxFault {
                    scope: Scope::Body,
                    at: (i + 1) as usize,
                    at_end: false,
                    wanted: Wanted::KnownType,
                },
            )
            &&& is_name(reader, tokens[i]) && first != "type"@ && is_punct(tokens[i + 1], '=')
                && first != "config"@ && first != "stages"@ && first != "graph"@ ==> read == Err::<
                (BodyModel, Cursor),
                SyntaxFault,
            >(
                SyntaxFault {
                    scope: Scope::Body,
                    at: i as usize,
                    at_end: false,
                    wanted: Wanted::KnownAssignment,
                },
            )
        }),
{
    lemma_visible(tokens, i, 0);
    lemma_visible(tokens, i + 1, 0);
    lemma_visible(tokens, i + 2, 0);
    lemma_visible(tokens, i + 3, 0);
    lemma_visible(tokens, end, 0);
    if is_first_fragment(reader, Fragment::Type, ';', tokens, i + 3, end) {
        lemma_fragment_is_found(reader, Fragment::Type, ';', tokens, i + 3, end, Scope::Body);
    }
}

} // verus!
