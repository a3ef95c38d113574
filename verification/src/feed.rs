//! Reading tokens one after another. An invisible group is stepped into where a
//! single token is read, and is one of the tokens where a run of them is taken.
use crate::tokens;
use crate::tokens::{Delimiter, Token};
use vstd::prelude::*;

verus! {

/// The tokens with the invisible groups opened that they begin with.
pub open spec fn opened(tokens: Seq<Token>) -> Seq<Token>
    decreases tokens,
{
    if tokens.len() == 0 {
        tokens
    } else {
        match tokens[0] {
            Token::Group(Delimiter::Invisible, inner) => {
                let head = opened(inner@);
                let tail = tokens.subrange(1, tokens.len() as int);
                if head.len() == 0 {
                    opened(tail)
                } else {
                    head + tail
                }
            },
            _ => tokens,
        }
    }
}

/// How many visible tokens a token stands for: those of an invisible group, or
/// else itself.
pub open spec fn token_width(token: Token) -> nat
    decreases token,
{
    match token {
        Token::Group(Delimiter::Invisible, inner) => width(inner@),
        _ => 1,
    }
}

/// How many visible tokens some tokens stand for.
pub open spec fn width(tokens: Seq<Token>) -> nat
    decreases tokens,
{
    if tokens.len() == 0 {
        0
    } else {
        token_width(tokens[0]) + width(tokens.subrange(1, tokens.len() as int))
    }
}

/// A count as a machine number, or the largest one where it does not fit.
pub open spec fn capped(count: nat) -> usize {
    if count <= usize::MAX {
        count as usize
    } else {
        usize::MAX
    }
}

/// What is left to read, and how many visible tokens were passed.
pub struct Cursor {
    pub rest: Seq<Token>,
    pub at: nat,
}

/// The cursor before some tokens.
pub open spec fn before(tokens: Seq<Token>) -> Cursor {
    Cursor { rest: tokens, at: 0 }
}

impl Cursor {
    /// The next visible token, if there is one.
    pub open spec fn head(self) -> Option<Token> {
        if opened(self.rest).len() > 0 {
            Some(opened(self.rest)[0])
        } else {
            None
        }
    }

    /// The cursor behind the next visible token.
    pub open spec fn past(self) -> Cursor {
        Cursor { rest: opened(self.rest).skip(1), at: self.at + 1 }
    }

    /// The cursor behind the first `count` tokens, groups counting once.
    pub open spec fn skipped(self, count: int) -> Cursor {
        Cursor { rest: self.rest.skip(count), at: self.at + width(self.rest.take(count)) }
    }

    /// The place of the cursor.
    pub open spec fn place(self) -> usize {
        capped(self.at)
    }
}

pub proof fn lemma_width_of_both(a: Seq<Token>, b: Seq<Token>)
    ensures
        width(a + b) == width(a) + width(b),
    decreases a.len(),
{
    if a.len() == 0 {
        assert(a + b =~= b);
    } else {
        let tail = a.subrange(1, a.len() as int);
        lemma_width_of_both(tail, b);
        assert((a + b).subrange(1, (a + b).len() as int) =~= tail + b);
    }
}

/// Opening groups keeps the visible tokens, and what then comes first is one.
pub proof fn lemma_opened(tokens: Seq<Token>)
    ensures
        width(opened(tokens)) == width(tokens),
        opened(tokens).len() > 0 ==> token_width(opened(tokens)[0]) == 1,
        opened(tokens).len() > 0 ==> !(opened(tokens)[0] matches Token::Group(
            Delimiter::Invisible,
            _,
        )),
    decreases tokens,
{
    if tokens.len() > 0 {
        let tail = tokens.subrange(1, tokens.len() as int);
        if let Token::Group(Delimiter::Invisible, inner) = tokens[0] {
            lemma_opened(inner@);
            assert(token_width(tokens[0]) == width(inner@));
            if opened(inner@).len() == 0 {
                assert(width(opened(inner@)) == 0);
                lemma_opened(tail);
            } else {
                lemma_width_of_both(opened(inner@), tail);
            }
        }
    }
}

proof fn lemma_opened_both(a: Seq<Token>, b: Seq<Token>)
    ensures
        opened(a + b) == if opened(a).len() > 0 {
            opened(a) + b
        } else {
            opened(b)
        },
    decreases a.len(),
{
    if a.len() == 0 {
        assert(a + b =~= b);
    } else {
        let tail = a.subrange(1, a.len() as int);
        assert((a + b).subrange(1, (a + b).len() as int) =~= tail + b);
        if let Token::Group(Delimiter::Invisible, inner) = a[0] {
            if opened(inner@).len() == 0 {
                lemma_opened_both(tail, b);
            } else {
                assert(opened(inner@) + (tail + b) =~= opened(inner@) + tail + b);
            }
        }
    }
}

/// An invisible group is stepped into where a single token is read: what comes
/// next, and what is left behind it, is as if its tokens stood in its place.
pub proof fn law_invisible_group_is_stepped_into(group: Vec<Token>, rest: Seq<Token>, at: nat)
    ensures
        ({
            let wrapped = Cursor {
                rest: seq![Token::Group(Delimiter::Invisible, group)] + rest,
                at,
            };
            let bare = Cursor { rest: group@ + rest, at };
            wrapped.head() == bare.head() && wrapped.past() == bare.past()
        }),
{
    let wrapped = seq![Token::Group(Delimiter::Invisible, group)] + rest;
    assert(wrapped.subrange(1, wrapped.len() as int) =~= rest);
    lemma_opened_both(group@, rest);
}

/// Passing a visible token leaves one less.
pub proof fn lemma_past(cursor: Cursor)
    requires
        cursor.head() is Some,
    ensures
        width(cursor.past().rest) + 1 == width(cursor.rest),
{
    lemma_opened(cursor.rest);
    let open = opened(cursor.rest);
    assert(open.skip(1) =~= open.subrange(1, open.len() as int));
}

/// Skipping tokens leaves the visible ones behind them.
pub proof fn lemma_skipped(cursor: Cursor, count: int)
    requires
        0 <= count <= cursor.rest.len(),
    ensures
        cursor.at + width(cursor.rest) == cursor.skipped(count).at + width(
            cursor.skipped(count).rest,
        ),
{
    lemma_width_of_both(cursor.rest.take(count), cursor.rest.skip(count));
    assert(cursor.rest.take(count) + cursor.rest.skip(count) =~= cursor.rest);
}

proof fn lemma_plain_push(refs: Seq<&Token>, token: &Token)
    ensures
        tokens::plain(refs.push(token)) == tokens::plain(refs).push(*token),
{
    assert(tokens::plain(refs.push(token)) =~= tokens::plain(refs).push(*token));
}

/// Appends the tokens with their leading groups opened.
fn open_into<'a>(tokens: &'a Vec<Token>, out: &mut Vec<&'a Token>)
    ensures
        tokens::plain(final(out)@) == tokens::plain(old(out)@) + opened(tokens@),
    decreases tokens@,
{
    let ghost kept = tokens::plain(out@);
    let mut index: usize = 0;
    assert(tokens@.skip(0) =~= tokens@);
    assert(kept + opened(Seq::<Token>::empty()) =~= kept);
    while index < tokens.len()
        invariant
            index <= tokens@.len(),
            kept == tokens::plain(old(out)@),
            tokens::plain(out@) == kept,
            opened(tokens@) == opened(tokens@.skip(index as int)),
        decreases tokens@.len() - index,
    {
        let ghost rest = tokens@.skip(index as int);
        assert(rest.subrange(1, rest.len() as int) =~= tokens@.skip(index + 1));
        if let Token::Group(Delimiter::Invisible, inner) = &tokens[index] {
            proof {
                assert(decreases_to!(tokens@ => tokens@[index as int]));
                assert(decreases_to!(tokens@[index as int] => tokens@[index as int]->Group_1));
                assert(decreases_to!(
                    tokens@[index as int]->Group_1 => tokens@[index as int]->Group_1@
                ));
            }
            let held: usize = out.len();
            assert(kept.len() == held);
            open_into(inner, out);
            assert(tokens::plain(out@).len() == out@.len());
            assert(opened(rest) == if opened(inner@).len() == 0 {
                opened(tokens@.skip(index + 1))
            } else {
                opened(inner@) + tokens@.skip(index + 1)
            });
            if out.len() > held {
                push_from(tokens, index + 1, out);
                assert(tokens::plain(out@) =~= kept + opened(tokens@));
                return ;
            }
            assert(tokens::plain(out@) =~= kept);
            index += 1;
        } else {
            push_from(tokens, index, out);
            assert(opened(rest) == rest);
            return ;
        }
    }
    assert(tokens@.skip(index as int) =~= Seq::empty());
}

/// Appends the tokens from a place on.
fn push_from<'a>(tokens: &'a Vec<Token>, from: usize, out: &mut Vec<&'a Token>)
    requires
        from <= tokens@.len(),
    ensures
        tokens::plain(final(out)@) == tokens::plain(old(out)@) + tokens@.skip(from as int),
{
    let ghost kept = tokens::plain(out@);
    let mut index: usize = from;
    while index < tokens.len()
        invariant
            from <= index <= tokens@.len(),
            tokens::plain(out@) == kept + tokens@.subrange(from as int, index as int),
        decreases tokens@.len() - index,
    {
        proof {
            lemma_plain_push(out@, &tokens@[index as int]);
        }
        out.push(&tokens[index]);
        index += 1;
        assert(tokens::plain(out@) =~= kept + tokens@.subrange(from as int, index as int));
    }
    assert(tokens@.subrange(from as int, index as int) =~= tokens@.skip(from as int));
}

/// Appends the tokens behind some references from a place on.
fn push_refs<'a>(refs: &Vec<&'a Token>, from: usize, out: &mut Vec<&'a Token>)
    requires
        from <= refs@.len(),
    ensures
        tokens::plain(final(out)@) == tokens::plain(old(out)@) + tokens::plain(refs@).skip(
            from as int,
        ),
{
    let ghost kept = tokens::plain(out@);
    let ghost all = tokens::plain(refs@);
    let mut index: usize = from;
    while index < refs.len()
        invariant
            from <= index <= refs@.len(),
            all == tokens::plain(refs@),
            tokens::plain(out@) == kept + all.subrange(from as int, index as int),
        decreases refs@.len() - index,
    {
        proof {
            lemma_plain_push(out@, refs@[index as int]);
        }
        out.push(refs[index]);
        index += 1;
        assert(tokens::plain(out@) =~= kept + all.subrange(from as int, index as int));
    }
    assert(all.subrange(from as int, index as int) =~= all.skip(from as int));
}

/// The first visible token.
fn first<'a>(tokens: &'a Vec<Token>) -> (found: Option<&'a Token>)
    ensures
        match before(tokens@).head() {
            Some(token) => found is Some && *found->0 == token,
            None => found is None,
        },
    decreases tokens@,
{
    let mut index: usize = 0;
    assert(tokens@.skip(0) =~= tokens@);
    while index < tokens.len()
        invariant
            index <= tokens@.len(),
            opened(tokens@) == opened(tokens@.skip(index as int)),
        decreases tokens@.len() - index,
    {
        let ghost rest = tokens@.skip(index as int);
        assert(rest.subrange(1, rest.len() as int) =~= tokens@.skip(index + 1));
        if let Token::Group(Delimiter::Invisible, inner) = &tokens[index] {
            proof {
                assert(decreases_to!(tokens@ => tokens@[index as int]));
                assert(decreases_to!(tokens@[index as int] => tokens@[index as int]->Group_1));
                assert(decreases_to!(
                    tokens@[index as int]->Group_1 => tokens@[index as int]->Group_1@
                ));
            }
            let found: Option<&'a Token> = first(inner);
            if found.is_some() {
                return found;
            }
            index += 1;
        } else {
            return Some(&tokens[index]);
        }
    }
    assert(tokens@.skip(index as int) =~= Seq::empty());
    None
}

/// Counts the visible tokens that a token stands for.
fn count_token(token: &Token) -> (count: usize)
    ensures
        count == capped(token_width(*token)),
    decreases *token,
{
    match token {
        Token::Group(Delimiter::Invisible, inner) => {
            assert(decreases_to!(*token => token->Group_1));
            assert(decreases_to!(token->Group_1 => token->Group_1@));
            count_tokens(inner)
        },
        _ => 1,
    }
}

/// Counts the visible tokens.
pub fn count_tokens(tokens: &Vec<Token>) -> (count: usize)
    ensures
        count == capped(width(tokens@)),
    decreases tokens@,
{
    let mut count: usize = 0;
    let mut index: usize = 0;
    while index < tokens.len()
        invariant
            index <= tokens@.len(),
            count == capped(width(tokens@.take(index as int))),
        decreases tokens@.len() - index,
    {
        proof {
            assert(decreases_to!(tokens@ => tokens@[index as int]));
            lemma_width_of_next(tokens@, index as int);
        }
        count = count.saturating_add(count_token(&tokens[index]));
        index += 1;
    }
    assert(tokens@.take(index as int) =~= tokens@);
    count
}

proof fn lemma_width_of_next(tokens: Seq<Token>, index: int)
    requires
        0 <= index < tokens.len(),
    ensures
        width(tokens.take(index + 1)) == width(tokens.take(index)) + token_width(tokens[index]),
{
    let one = seq![tokens[index]];
    assert(tokens.take(index + 1) =~= tokens.take(index) + one);
    lemma_width_of_both(tokens.take(index), one);
    assert(one.subrange(1, 1) =~= Seq::<Token>::empty());
    assert(width(one) == token_width(one[0]) + width(one.subrange(1, 1)));
}

/// Tokens that are being read.
pub struct Feed<'a> {
    tokens: Vec<&'a Token>,
    next: usize,
    at: usize,
    passed: Ghost<nat>,
}

impl<'a> Feed<'a> {
    /// The parts fit together.
    pub closed spec fn is_sound(self) -> bool {
        self.next <= self.tokens@.len() && self.at == capped(self.passed@)
    }

    /// Where the reading stands.
    pub closed spec fn cursor(self) -> Cursor {
        Cursor { rest: tokens::plain(self.tokens@).skip(self.next as int), at: self.passed@ }
    }

    /// Begins to read.
    pub fn new(tokens: &'a Vec<Token>) -> (feed: Self)
        ensures
            feed.is_sound(),
            feed.cursor() == before(tokens@),
    {
        let mut refs: Vec<&'a Token> = Vec::new();
        push_from(tokens, 0, &mut refs);
        assert(tokens::plain(refs@).skip(0) =~= tokens@);
        Feed { tokens: refs, next: 0, at: 0, passed: Ghost(0) }
    }

    /// How many tokens are left, groups counting once.
    pub fn left(&self) -> (count: usize)
        requires
            self.is_sound(),
        ensures
            count == self.cursor().rest.len(),
    {
        self.tokens.len() - self.next
    }

    /// The place that was reached.
    pub fn place(&self) -> (place: usize)
        requires
            self.is_sound(),
        ensures
            place == self.cursor().place(),
    {
        self.at
    }

    /// The next visible token behind the first `count` tokens.
    pub fn look(&self, count: usize) -> (found: Option<&'a Token>)
        requires
            self.is_sound(),
            count <= self.cursor().rest.len(),
        ensures
            match self.cursor().skipped(count as int).head() {
                Some(token) => found is Some && *found->0 == token,
                None => found is None,
            },
    {
        let ghost rest = self.cursor().rest.skip(count as int);
        let ghost all = tokens::plain(self.tokens@);
        assert(self.next + count <= self.tokens.len());
        let mut index: usize = self.next + count;
        assert(rest =~= all.skip(index as int));
        while index < self.tokens.len()
            invariant
                index <= self.tokens@.len(),
                all == tokens::plain(self.tokens@),
                rest == self.cursor().skipped(count as int).rest,
                opened(rest) == opened(all.skip(index as int)),
            decreases self.tokens@.len() - index,
        {
            let ghost here = all.skip(index as int);
            assert(here.subrange(1, here.len() as int) =~= all.skip(index + 1));
            assert(here[0] == *self.tokens@[index as int]);
            if let Token::Group(Delimiter::Invisible, inner) = self.tokens[index] {
                let found: Option<&'a Token> = first(inner);
                if found.is_some() {
                    assert(opened(here)[0] == opened(inner@)[0]);
                    return found;
                }
                index += 1;
            } else {
                return Some(self.tokens[index]);
            }
        }
        assert(all.skip(index as int) =~= Seq::empty());
        None
    }

    /// The next visible token.
    pub fn peek(&self) -> (found: Option<&'a Token>)
        requires
            self.is_sound(),
        ensures
            match self.cursor().head() {
                Some(token) => found is Some && *found->0 == token,
                None => found is None,
            },
    {
        assert(self.cursor().rest.skip(0) =~= self.cursor().rest);
        self.look(0)
    }

    /// Opens the groups that stand before the next visible token.
    pub fn enter(&mut self)
        requires
            old(self).is_sound(),
        ensures
            final(self).is_sound(),
            final(self).cursor() == (Cursor {
                rest: opened(old(self).cursor().rest),
                at: old(self).cursor().at,
            }),
    {
        let ghost all = tokens::plain(self.tokens@);
        let ghost rest = self.cursor().rest;
        while self.next < self.tokens.len()
            invariant
                self.next <= self.tokens@.len(),
                self.at == old(self).at,
                self.passed == old(self).passed,
                self.at == capped(self.passed@),
                all == tokens::plain(self.tokens@),
                rest == old(self).cursor().rest,
                opened(rest) == opened(all.skip(self.next as int)),
            decreases self.tokens@.len() - self.next,
        {
            let ghost here = all.skip(self.next as int);
            assert(here.subrange(1, here.len() as int) =~= all.skip(self.next + 1));
            assert(here[0] == *self.tokens@[self.next as int]);
            if let Token::Group(Delimiter::Invisible, inner) = self.tokens[self.next] {
                let mut refs: Vec<&'a Token> = Vec::new();
                assert(tokens::plain(refs@) =~= Seq::empty());
                open_into(inner, &mut refs);
                assert(tokens::plain(refs@) =~= opened(inner@));
                if refs.len() > 0 {
                    push_refs(&self.tokens, self.next + 1, &mut refs);
                    assert(tokens::plain(refs@).skip(0) =~= opened(rest));
                    self.tokens = refs;
                    self.next = 0;
                    return ;
                }
                self.next = self.next + 1;
            } else {
                assert(opened(here) == here);
                return ;
            }
        }
        assert(all.skip(self.next as int) =~= Seq::empty());
        assert(self.cursor().rest =~= opened(rest));
    }

    /// Passes the next visible token.
    pub fn pass(&mut self)
        requires
            old(self).is_sound(),
            old(self).cursor().head() is Some,
        ensures
            final(self).is_sound(),
            final(self).cursor() == old(self).cursor().past(),
    {
        self.enter();
        let ghost rest = self.cursor().rest;
        assert(self.next < self.tokens.len());
        self.next = self.next + 1;
        self.at = self.at.saturating_add(1);
        self.passed = Ghost((self.passed@ + 1) as nat);
        assert(self.cursor().rest =~= rest.skip(1));
    }

    /// The first `count` tokens.
    pub fn run(&self, count: usize) -> (run: Vec<&'a Token>)
        requires
            self.is_sound(),
            count <= self.cursor().rest.len(),
        ensures
            tokens::plain(run@) == self.cursor().rest.take(count as int),
    {
        let mut run: Vec<&'a Token> = Vec::new();
        let ghost rest = self.cursor().rest;
        let mut index: usize = 0;
        assert(tokens::plain(run@) =~= rest.take(0));
        while index < count
            invariant
                index <= count <= rest.len(),
                self.next <= self.tokens@.len(),
                rest == tokens::plain(self.tokens@).skip(self.next as int),
                tokens::plain(run@) == rest.take(index as int),
            decreases count - index,
        {
            assert(self.next + index < self.tokens.len());
            proof {
                lemma_plain_push(run@, self.tokens@[self.next + index]);
            }
            run.push(self.tokens[self.next + index]);
            index += 1;
            assert(tokens::plain(run@) =~= rest.take(index as int));
        }
        run
    }

    /// Skips the first `count` tokens.
    pub fn skip(&mut self, count: usize)
        requires
            old(self).is_sound(),
            count <= old(self).cursor().rest.len(),
        ensures
            final(self).is_sound(),
            final(self).cursor() == old(self).cursor().skipped(count as int),
    {
        let ghost rest = self.cursor().rest;
        let ghost at = self.passed@;
        let mut index: usize = 0;
        assert(rest.take(0) =~= Seq::empty());
        while index < count
            invariant
                index <= count <= rest.len(),
                self.next <= self.tokens@.len(),
                self.at == capped(self.passed@),
                tokens::plain(self.tokens@).skip(self.next as int) == rest.skip(index as int),
                self.passed@ == at + width(rest.take(index as int)),
            decreases count - index,
        {
            let ghost here = tokens::plain(self.tokens@).skip(self.next as int);
            proof {
                lemma_width_of_next(rest, index as int);
                assert(here.len() == rest.len() - index);
                assert(here[0] == *self.tokens@[self.next as int]);
                assert(rest.skip(index as int)[0] == rest[index as int]);
            }
            assert(self.next < self.tokens.len());
            self.at = self.at.saturating_add(count_token(self.tokens[self.next]));
            self.passed = Ghost(
                (self.passed@ + token_width(*self.tokens@[self.next as int])) as nat,
            );
            self.next = self.next + 1;
            index += 1;
            assert(tokens::plain(self.tokens@).skip(self.next as int) =~= here.skip(1));
            assert(here.skip(1) =~= rest.skip(index as int));
        }
    }
}

/// An invisible group counts for what it holds and any other token once, so that a row of
/// tokens counts for the sum.
pub proof fn law_groups_count_for_what_they_hold(token: Token, a: Seq<Token>, b: Seq<Token>)
    ensures
        width(Seq::empty()) == 0,
        width(a + b) == width(a) + width(b),
        token is Group && token->Group_0 == Delimiter::Invisible ==> width(seq![token]) == width(
            token->Group_1@,
        ),
        !(token is Group && token->Group_0 == Delimiter::Invisible) ==> width(seq![token]) == 1,
{
    lemma_width_of_both(a, b);
    let one = seq![token];
    assert(one.subrange(1, 1) =~= Seq::<Token>::empty());
    assert(width(one) == token_width(one[0]) + width(one.subrange(1, 1)));
    assert(width(one.subrange(1, 1)) == 0);
}

/// The visible tokens are counted: one more row adds its count, as far as the number can
/// hold it.
pub proof fn law_visible_tokens_are_counted(
    a: Vec<Token>,
    b: Vec<Token>,
    both: Vec<Token>,
    count_of_a: usize,
    count_of_b: usize,
    count: usize,
)
    requires
        both@ == a@ + b@,
        call_ensures(count_tokens, (&a,), count_of_a),
        call_ensures(count_tokens, (&b,), count_of_b),
        call_ensures(count_tokens, (&both,), count),
    ensures
        count_of_a + count_of_b <= usize::MAX ==> count == count_of_a + count_of_b || count
            == usize::MAX,
        count_of_a + count_of_b < usize::MAX ==> count == count_of_a + count_of_b,
        a@.len() == 0 ==> count_of_a == 0,
{
    lemma_width_of_both(a@, b@);
}

/// A feed begins before the tokens, tells how many are left, and passes one at a time.
pub proof fn law_feed_passes_one_at_a_time<'a>(feed: &mut Feed<'a>)
    requires
        old(feed).is_sound(),
        old(feed).cursor().head() is Some,
        call_ensures(Feed::<'a>::pass, (feed,), ()),
    ensures
        final(feed).cursor().at == old(feed).cursor().at + 1,
        width(final(feed).cursor().rest) + 1 == width(old(feed).cursor().rest),
        final(feed).cursor().rest == opened(old(feed).cursor().rest).skip(1),
{
    lemma_past(old(feed).cursor());
}

/// A feed that skips some tokens is behind them, and has passed as many as they count for.
pub proof fn law_feed_skips_what_it_is_told<'a>(feed: &mut Feed<'a>, count: usize)
    requires
        old(feed).is_sound(),
        count <= old(feed).cursor().rest.len(),
        call_ensures(Feed::<'a>::skip, (feed, count), ()),
    ensures
        final(feed).cursor().rest == old(feed).cursor().rest.skip(count as int),
        final(feed).cursor().at + width(final(feed).cursor().rest) == old(feed).cursor().at + width(
            old(feed).cursor().rest,
        ),
{
    lemma_skipped(old(feed).cursor(), count as int);
}

} // verus!
