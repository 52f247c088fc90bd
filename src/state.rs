use vstd::prelude::*;
use vstd::string::StringSliceAdditionalSpecFns;
use vstd::utf8::{encode_utf8_valid_utf8, is_char_boundary};

use crate::position::{matches_at, Position};
use crate::reserve::{lemma_values_all_filled, values, ReserveVec};
use crate::span::Span;
use crate::tokens::{ParserRule, Token};

verus! {

/// The outcome of a parsing step: `Ok` with the state after success, `Err`
/// with the state at the point of failure.
pub type StateResult<T> = Result<T, T>;

/// The state in either outcome.
pub open spec fn outcome<T>(r: StateResult<T>) -> T {
    match r {
        Ok(s) => s,
        Err(s) => s,
    }
}

/// `t` records `rule` over the bytes `[start, end)` of `text`.
pub open spec fn is_token_for<'a, R: ParserRule>(
    t: Token<'a, R>,
    rule: R,
    text: &'a str,
    start: nat,
    end: nat,
) -> bool {
    &&& t.rule == rule
    &&& t.span.text() == text
    &&& t.span.start_offset() == start
    &&& t.span.end_offset() == end
}

/// The state of a parse: a cursor over the input and the tokens found so far,
/// in depth-first pre-order.
#[derive(Debug)]
pub struct State<'a, R: ParserRule> {
    tokens: ReserveVec<Token<'a, R>>,
    cursor: Position<'a>,
}

impl<'a, R: ParserRule> State<'a, R> {
    /// The input being parsed.
    pub closed spec fn text(&self) -> &'a str {
        self.cursor.text()
    }

    pub open spec fn bytes(&self) -> Seq<u8> {
        self.text().spec_bytes()
    }

    /// The byte offset of the cursor.
    pub closed spec fn pos(&self) -> nat {
        self.cursor.offset()
    }

    /// The token slots: `None` for a slot reserved by a rule still running.
    pub closed spec fn slots(&self) -> Seq<Option<Token<'a, R>>> {
        self.tokens@
    }

    pub closed spec fn cursor_ok(&self) -> bool {
        &&& self.cursor.wf()
        &&& is_char_boundary(self.bytes(), self.pos() as int)
    }

    /// The cursor is on a character boundary of the input, and every token
    /// lies over the input with both ends on character boundaries.
    pub open spec fn wf(&self) -> bool {
        &&& self.cursor_ok()
        &&& self.pos() <= self.bytes().len()
        &&& forall|i: int|
            0 <= i < self.slots().len() && (#[trigger] self.slots()[i]) is Some ==> {
                let t = self.slots()[i]->Some_0;
                t.span.text() == self.text() && t.span.on_boundaries()
            }
    }

    /// `other` holds the same input, cursor and slots as `self`.
    pub open spec fn same_as(&self, other: &Self) -> bool {
        &&& self.text() == other.text()
        &&& self.pos() == other.pos()
        &&& self.slots() == other.slots()
    }

    /// `next` follows from `self` by parsing: same input, the cursor has not
    /// moved back, the old slots are kept and every slot added is filled.
    pub open spec fn steps_to(&self, next: &Self) -> bool {
        &&& next.wf()
        &&& next.text() == self.text()
        &&& self.pos() <= next.pos()
        &&& self.slots().len() <= next.slots().len()
        &&& next.slots().subrange(0, self.slots().len() as int) == self.slots()
        &&& forall|i: int|
            self.slots().len() <= i < next.slots().len() ==> (#[trigger] next.slots()[i]) is Some
    }

    /// `mid` is `self` with one more slot reserved.
    pub open spec fn reserved_in(&self, mid: &Self) -> bool {
        &&& mid.wf()
        &&& mid.text() == self.text()
        &&& mid.pos() == self.pos()
        &&& mid.slots() == self.slots().push(None)
    }

    /// Every state that parsing reaches from a fresh state has all its slots
    /// filled, so its tokens are its slots' contents, in slot order.
    pub proof fn lemma_fresh_parse_fills_all(start: Self, end: Self)
        requires
            start.slots().len() == 0,
            start.steps_to(&end),
        ensures
            values(end.slots()).len() == end.slots().len(),
            forall|i: int|
                0 <= i < end.slots().len() ==> Some(#[trigger] values(end.slots())[i])
                    == end.slots()[i],
    {
        assert forall|i: int| 0 <= i < end.slots().len() implies (#[trigger] end.slots()[i]) is Some by {
        }
        lemma_values_all_filled(end.slots());
    }

    /// A fresh state over `input`, with the cursor at the start.
    pub fn new(input: &'a str) -> (r: State<'a, R>)
        ensures
            r.wf(),
            r.text() == input,
            r.pos() == 0,
            r.slots() == Seq::<Option<Token<'a, R>>>::empty(),
    {
        proof {
            encode_utf8_valid_utf8(input@);
        }
        let cursor = match Position::new(input, 0) {
            Ok(c) => c,
            Err(_) => vstd::pervasive::unreached(),
        };
        State { tokens: ReserveVec::new(), cursor }
    }

    /// The byte offset of the cursor.
    pub fn idx(&self) -> (r: usize)
        ensures
            r == self.pos(),
    {
        self.cursor.idx()
    }

    /// The tokens found, in depth-first pre-order: each token before the
    /// tokens inside it, and siblings from left to right.
    pub fn tokens(self) -> (r: Vec<Token<'a, R>>)
        ensures
            r@ == values(self.slots()),
    {
        self.tokens.into_vec()
    }

    /// Runs `f` as the body of `rule`. When it succeeds, the token for `rule`
    /// over the input it consumed takes the slot reserved before the body ran,
    /// ahead of the tokens the body produced. When it fails, the state is put
    /// back as it was.
    pub fn tokenize<F>(self, rule: R, f: F) -> (r: StateResult<Self>) where
        F: Fn(Self) -> StateResult<Self>,
        requires
            self.wf(),
            forall|s: Self| s.wf() ==> #[trigger] f.requires((s,)),
            forall|s: Self, res: StateResult<Self>|
                s.wf() && #[trigger] f.ensures((s,), res) ==> s.steps_to(&outcome(res)),
        ensures
            self.steps_to(&outcome(r)),
            r is Ok ==> exists|mid: Self, inner: Self|
                {
                    &&& self.reserved_in(&mid)
                    &&& #[trigger] f.ensures((mid,), Ok(inner))
                    &&& r->Ok_0.pos() == inner.pos()
                    &&& r->Ok_0.slots().len() == inner.slots().len()
                    &&& forall|i: int|
                        0 <= i < inner.slots().len() && i != self.slots().len() ==> r->Ok_0.slots()[i]
                            == inner.slots()[i]
                },
            r is Ok ==> r->Ok_0.slots()[self.slots().len() as int] is Some && is_token_for(
                r->Ok_0.slots()[self.slots().len() as int]->Some_0,
                rule,
                self.text(),
                self.pos(),
                r->Ok_0.pos(),
            ),
            r is Err ==> r->Err_0.same_as(&self) && exists|mid: Self, e: Self|
                self.reserved_in(&mid) && #[trigger] f.ensures((mid,), Err(e)),
    {
        let ghost orig = self;
        let start = self.cursor;
        let len = self.tokens.len();
        let mut s = self;
        let slot = s.tokens.reserve_next();
        let ghost mid = s;
        proof {
            assert(orig.reserved_in(&mid)) by {
                assert forall|i: int|
                    0 <= i < mid.slots().len() && (#[trigger] mid.slots()[i]) is Some implies {
                        let t = mid.slots()[i]->Some_0;
                        t.span.text() == mid.text() && t.span.on_boundaries()
                    } by {
                    assert(mid.slots()[i] == orig.slots()[i]);
                }
            }
        }
        match f(s) {
            Ok(mut st) => {
                let ghost inner = st;
                proof {
                    assert(mid.steps_to(&inner));
                    assert(inner.slots()[len as int] == mid.slots()[len as int]);
                }
                let end = st.cursor;
                let span = Span::between(&start, &end);
                let tok = Token::new(rule, span);
                st.tokens.insert_at_reserved(slot, tok);
                proof {
                    assert(st.slots() == inner.slots().update(len as int, Some(tok)));
                    assert forall|i: int|
                        0 <= i < st.slots().len() && (#[trigger] st.slots()[i]) is Some implies {
                            let t = st.slots()[i]->Some_0;
                            t.span.text() == st.text() && t.span.on_boundaries()
                        } by {
                        if i != len {
                            assert(st.slots()[i] == inner.slots()[i]);
                        }
                    }
                    assert(st.slots().subrange(0, len as int) =~= orig.slots()) by {
                        assert forall|i: int| 0 <= i < len implies st.slots()[i] == orig.slots()[i] by {
                            assert(inner.slots().subrange(0, mid.slots().len() as int)[i]
                                == mid.slots()[i]);
                        }
                    }
                    assert(st.wf());
                    assert forall|i: int| orig.slots().len() <= i < st.slots().len() implies (
                    #[trigger] st.slots()[i]) is Some by {
                        if i != len {
                            assert(st.slots()[i] == inner.slots()[i]);
                        }
                    }
                }
                Ok(st)
            },
            Err(mut st) => {
                let ghost e = st;
                proof {
                    assert(mid.steps_to(&e));
                }
                st.tokens.truncate(len);
                st.cursor = start;
                proof {
                    assert(st.slots() =~= orig.slots()) by {
                        assert forall|i: int| 0 <= i < len implies st.slots()[i] == orig.slots()[i] by {
                            assert(e.slots().subrange(0, mid.slots().len() as int)[i]
                                == mid.slots()[i]);
                        }
                    }
                    assert(st.slots().subrange(0, len as int) =~= orig.slots());
                    assert(st.wf());
                }
                Err(st)
            },
        }
    }

    /// Each state of `chain` is an advancing success of `f` on the one before.
    pub open spec fn advancing_chain<F: Fn(Self) -> StateResult<Self>>(
        f: F,
        chain: Seq<Self>,
    ) -> bool {
        forall|i: int|
            0 <= i < chain.len() - 1 ==> #[trigger] f.ensures((chain[i],), Ok(chain[i + 1]))
                && chain[i].pos() < chain[i + 1].pos()
    }

    /// Applies `f` again and again while it succeeds and moves the cursor. It
    /// stops at the first failure, with the state of the last success (or the
    /// initial state), or at the first success that leaves the cursor where it
    /// was, with that success's state. Either way it succeeds.
    pub fn repeat<F>(self, f: F) -> (r: StateResult<Self>) where
        F: Fn(Self) -> StateResult<Self>,
        requires
            self.wf(),
            forall|s: Self| s.wf() ==> #[trigger] f.requires((s,)),
            forall|s: Self, res: StateResult<Self>|
                s.wf() && #[trigger] f.ensures((s,), res) ==> s.steps_to(&outcome(res)),
        ensures
            r is Ok,
            self.steps_to(&r->Ok_0),
            exists|chain: Seq<Self>|
                {
                    &&& chain.len() >= 1
                    &&& chain[0] == self
                    &&& #[trigger] Self::advancing_chain(f, chain)
                    &&& {
                        ||| exists|e: Self|
                            #[trigger] f.ensures((chain.last(),), Err(e)) && r->Ok_0.same_as(
                                &chain.last(),
                            )
                        ||| f.ensures((chain.last(),), Ok(r->Ok_0)) && r->Ok_0.pos()
                            == chain.last().pos()
                    }
                },
    {
        let ghost orig = self;
        let ghost mut chain: Seq<Self> = seq![self];
        proof {
            assert(orig.slots().subrange(0, orig.slots().len() as int) =~= orig.slots());
        }
        let mut cur = self;
        loop
            invariant
                forall|s: Self| s.wf() ==> #[trigger] f.requires((s,)),
                forall|s: Self, res: StateResult<Self>|
                    s.wf() && #[trigger] f.ensures((s,), res) ==> s.steps_to(&outcome(res)),
                orig == self,
                orig.wf(),
                orig.steps_to(&cur),
                chain.len() >= 1,
                chain[0] == orig,
                chain.last() == cur,
                Self::advancing_chain(f, chain),
            decreases cur.bytes().len() - cur.pos(),
        {
            let len = cur.tokens.len();
            let start = cur.cursor;
            let ghost prev = cur;
            match f(cur) {
                Ok(next) => {
                    proof {
                        assert(prev.steps_to(&next));
                        assert(orig.steps_to(&next)) by {
                            assert forall|i: int| 0 <= i < orig.slots().len() implies
                                next.slots()[i] == orig.slots()[i] by {
                                assert(next.slots().subrange(0, prev.slots().len() as int)[i]
                                    == prev.slots()[i]);
                                assert(prev.slots().subrange(0, orig.slots().len() as int)[i]
                                    == orig.slots()[i]);
                            }
                            assert(next.slots().subrange(0, orig.slots().len() as int)
                                =~= orig.slots());
                            assert forall|i: int|
                                orig.slots().len() <= i < next.slots().len() implies (
                            #[trigger] next.slots()[i]) is Some by {
                                if i < prev.slots().len() {
                                    assert(next.slots().subrange(0, prev.slots().len() as int)[i]
                                        == prev.slots()[i]);
                                }
                            }
                        }
                    }
                    if next.cursor.idx() > start.idx() {
                        proof {
                            let old_chain = chain;
                            chain = chain.push(next);
                            assert forall|i: int| 0 <= i < chain.len() - 1 implies #[trigger] f.ensures(
                                (chain[i],),
                                Ok(chain[i + 1]),
                            ) && chain[i].pos() < chain[i + 1].pos() by {
                                if i < old_chain.len() - 1 {
                                    assert(chain[i] == old_chain[i]);
                                    assert(chain[i + 1] == old_chain[i + 1]);
                                }
                            }
                        }
                        cur = next;
                    } else {
                        return Ok(next);
                    }
                },
                Err(mut e) => {
                    let ghost failed = e;
                    proof {
                        assert(prev.steps_to(&failed));
                    }
                    e.tokens.truncate(len);
                    e.cursor = start;
                    proof {
                        assert(e.slots() =~= prev.slots()) by {
                            assert forall|i: int| 0 <= i < len implies e.slots()[i]
                                == prev.slots()[i] by {
                                assert(failed.slots().subrange(0, prev.slots().len() as int)[i]
                                    == prev.slots()[i]);
                            }
                        }
                        assert(e.wf());
                        assert(e.same_as(&chain.last()));
                        assert(f.ensures((chain.last(),), Err(failed)));
                        assert(Self::advancing_chain(f, chain));
                        assert(orig.steps_to(&e)) by {
                            assert forall|i: int| 0 <= i < orig.slots().len() implies
                                e.slots()[i] == orig.slots()[i] by {
                                assert(prev.slots().subrange(0, orig.slots().len() as int)[i]
                                    == orig.slots()[i]);
                            }
                            assert(e.slots().subrange(0, orig.slots().len() as int)
                                =~= orig.slots());
                        }
                    }
                    return Ok(e);
                },
            }
        }
    }

    /// Hands the state to `f` and returns what it returns.
    pub fn apply<F>(self, f: F) -> (r: StateResult<Self>) where
        F: FnOnce(Self) -> StateResult<Self>,
        requires
            f.requires((self,)),
        ensures
            f.ensures((self,), r),
    {
        f(self)
    }

    /// Runs `f`, and succeeds whether or not `f` did, with the state `f` left.
    pub fn optional<F>(self, f: F) -> (r: StateResult<Self>) where
        F: FnOnce(Self) -> StateResult<Self>,
        requires
            f.requires((self,)),
        ensures
            r is Ok,
            f.ensures((self,), Ok(r->Ok_0)) || f.ensures((self,), Err(r->Ok_0)),
    {
        match f(self) {
            Ok(state) => Ok(state),
            Err(state) => Ok(state),
        }
    }

    /// Advances past `s` when the input holds `s` at the cursor; fails with
    /// the state unchanged otherwise.
    pub fn match_str(self, s: &str) -> (r: StateResult<Self>)
        requires
            self.wf(),
        ensures
            matches_at(self.bytes(), self.pos() as int, s.spec_bytes()) ==> r is Ok
                && r->Ok_0.wf() && r->Ok_0.text() == self.text() && r->Ok_0.slots()
                == self.slots() && r->Ok_0.pos() == self.pos() + s.spec_bytes().len(),
            !matches_at(self.bytes(), self.pos() as int, s.spec_bytes()) ==> r == Err::<
                Self,
                Self,
            >(self),
    {
        let mut st = self;
        if st.cursor.match_str(s) {
            Ok(st)
        } else {
            Err(st)
        }
    }
}

} // verus!
