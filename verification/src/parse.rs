//! The declaration-value grammar for custom properties.
//!
//! The grammar is a state machine over the flat token list: a frame stack
//! tracks block nesting and the `var()` sub-grammar, the serialization
//! categories of the first and last top-level tokens are recorded, and the
//! referenced names are collected.  The machine mirrors, token for token,
//! parsing a declaration value up to (but not past) a top-level `!` or `;`:
//! at least one non-comment token is required; bad-url, bad-string and
//! unmatched closing tokens are rejected at every nesting level; a `var(`
//! function must hold an identifier with a `--` prefix, optionally followed
//! by a comma and a fallback declaration value, whose references are
//! collected too.

use vstd::prelude::*;
use crate::sertype::SerType;
use crate::tokens::{
    Tok, TokV, TokKind, toks_of, toks_view, tokenize, clean_toks, concat_texts, spec_ser_of,
    ser_of, spec_is_open, is_open,
};
use crate::maps::NameSet;
use crate::value::{SpecifiedValue, SpecifiedValueV};
use crate::bytes::{spec_is_var_keyword, is_var_keyword};
use crate::spec_parse_name;

verus! {

/// One frame of the grammar walk.
#[derive(Clone, Copy, PartialEq, Eq, Structural, Debug)]
pub enum PFrame {
    /// A declaration value that still needs its first non-comment token;
    /// `top` distinguishes the whole value from a `var()` fallback.
    DeclFirst { top: bool },
    /// A declaration value after its first token.
    DeclRest { top: bool },
    /// An ordinary nested block.
    NormalBlk,
    /// Inside `var(`, expecting the identifier.
    VarName,
    /// Identifier seen: expecting `,`, the end of the block, or one junk
    /// token that a failed comma probe consumes.
    VarAfterName,
    /// Junk consumed: only trailing whitespace and comments may remain.
    VarEnd,
    /// A block consumed wholesale, without grammar checks.
    SkipBlock,
}

/// The state of the grammar walk.
pub struct PStateV {
    pub stack: Seq<PFrame>,
    pub refs: Set<Seq<u8>>,
    pub first: SerType,
    pub last: SerType,
    pub failed: bool,
    pub done_at: Option<int>,
}

/// The state before any token.
pub open spec fn p_init() -> PStateV {
    PStateV {
        stack: seq![PFrame::DeclFirst { top: true }],
        refs: Set::empty(),
        first: SerType::Nothing,
        last: SerType::Nothing,
        failed: false,
        done_at: None,
    }
}

/// Whether this token stops a declaration value: a `!` delimiter or a
/// semicolon at the value's own nesting level.
pub open spec fn spec_is_terminator(t: TokV) -> bool {
    (t.kind == TokKind::DelimTok && t.ch == '!') || t.kind == TokKind::SemicolonTok
}

/// Whether this token is a parse error inside a declaration value.
pub open spec fn spec_is_err_tok(k: TokKind) -> bool {
    k == TokKind::BadUrlTok || k == TokKind::BadStringTok || k == TokKind::CloseTok
}

/// Whether this token is skipped where the grammar skips whitespace and
/// comments.
pub open spec fn spec_is_ws(k: TokKind) -> bool {
    k == TokKind::WhiteSpaceTok || k == TokKind::CommentTok
}

/// The state, failed.
pub open spec fn p_fail(st: PStateV) -> PStateV {
    PStateV { failed: true, ..st }
}

/// Record the first and last token categories, at the top level only.
pub open spec fn p_upd_top(st: PStateV, top: bool, t: TokV) -> PStateV {
    if top {
        PStateV {
            first: if st.first == SerType::Nothing {
                spec_ser_of(t.kind, t.ch)
            } else {
                st.first
            },
            last: spec_ser_of(t.kind, t.ch),
            ..st
        }
    } else {
        st
    }
}

/// A token handled by a declaration-value level whose first token was seen.
pub open spec fn p_decl_rest(st: PStateV, top: bool, t: TokV, i: int) -> PStateV {
    if spec_is_terminator(t) {
        if top {
            PStateV { done_at: Some(i), ..st }
        } else {
            p_fail(st)
        }
    } else if spec_is_err_tok(t.kind) {
        p_fail(st)
    } else if t.kind == TokKind::FunctionTok && spec_is_var_keyword(t.name) {
        let st1 = p_upd_top(st, top, t);
        PStateV { stack: st1.stack.push(PFrame::VarName), ..st1 }
    } else if spec_is_open(t.kind) {
        let st1 = p_upd_top(st, top, t);
        PStateV { stack: st1.stack.push(PFrame::NormalBlk), ..st1 }
    } else if t.kind == TokKind::BlockEndTok {
        if top {
            p_fail(st)
        } else {
            PStateV { stack: st.stack.drop_last(), ..st }
        }
    } else {
        p_upd_top(st, top, t)
    }
}

/// One step of the grammar walk on token `t` at index `i`.
pub open spec fn p_step(st: PStateV, t: TokV, i: int) -> PStateV {
    if st.failed || st.done_at is Some || st.stack.len() == 0 {
        st
    } else {
        match st.stack.last() {
            PFrame::DeclFirst { top } => {
                if t.kind == TokKind::CommentTok {
                    p_upd_top(st, top, t)
                } else if spec_is_terminator(t) || t.kind == TokKind::BlockEndTok {
                    p_fail(st)
                } else {
                    let st1 = PStateV {
                        stack: st.stack.update(
                            st.stack.len() - 1,
                            PFrame::DeclRest { top },
                        ),
                        ..st
                    };
                    p_decl_rest(st1, top, t, i)
                }
            },
            PFrame::DeclRest { top } => p_decl_rest(st, top, t, i),
            PFrame::NormalBlk => {
                if spec_is_err_tok(t.kind) {
                    p_fail(st)
                } else if t.kind == TokKind::FunctionTok && spec_is_var_keyword(t.name) {
                    PStateV { stack: st.stack.push(PFrame::VarName), ..st }
                } else if spec_is_open(t.kind) {
                    PStateV { stack: st.stack.push(PFrame::NormalBlk), ..st }
                } else if t.kind == TokKind::BlockEndTok {
                    PStateV { stack: st.stack.drop_last(), ..st }
                } else {
                    st
                }
            },
            PFrame::VarName => {
                if spec_is_ws(t.kind) {
                    st
                } else if t.kind == TokKind::IdentTok && crate::spec_parse_name(t.name) is Some {
                    PStateV {
                        stack: st.stack.update(st.stack.len() - 1, PFrame::VarAfterName),
                        refs: st.refs.insert(crate::spec_parse_name(t.name)->Some_0),
                        ..st
                    }
                } else {
                    p_fail(st)
                }
            },
            PFrame::VarAfterName => {
                if spec_is_ws(t.kind) {
                    st
                } else if t.kind == TokKind::CommaTok {
                    PStateV {
                        stack: st.stack.update(
                            st.stack.len() - 1,
                            PFrame::DeclFirst { top: false },
                        ),
                        ..st
                    }
                } else if t.kind == TokKind::BlockEndTok {
                    PStateV { stack: st.stack.drop_last(), ..st }
                } else if spec_is_open(t.kind) {
                    PStateV {
                        stack: st.stack.update(st.stack.len() - 1, PFrame::VarEnd).push(
                            PFrame::SkipBlock,
                        ),
                        ..st
                    }
                } else {
                    PStateV { stack: st.stack.update(st.stack.len() - 1, PFrame::VarEnd), ..st }
                }
            },
            PFrame::VarEnd => {
                if spec_is_ws(t.kind) {
                    st
                } else if t.kind == TokKind::BlockEndTok {
                    PStateV { stack: st.stack.drop_last(), ..st }
                } else {
                    p_fail(st)
                }
            },
            PFrame::SkipBlock => {
                if spec_is_open(t.kind) {
                    PStateV { stack: st.stack.push(PFrame::SkipBlock), ..st }
                } else if t.kind == TokKind::BlockEndTok {
                    PStateV { stack: st.stack.drop_last(), ..st }
                } else {
                    st
                }
            },
        }
    }
}

/// The state after the first `n` tokens.
pub open spec fn p_run(ts: Seq<TokV>, n: int) -> PStateV
    decreases n,
{
    if n <= 0 {
        p_init()
    } else {
        p_step(p_run(ts, n - 1), ts[n - 1], n - 1)
    }
}

/// Where the parsed value ends: the index of the top-level terminator, the
/// input's end, or nothing when the grammar rejects the value.
pub open spec fn p_outcome(ts: Seq<TokV>) -> Option<int> {
    let st = p_run(ts, ts.len() as int);
    if st.failed {
        None
    } else if st.done_at is Some {
        st.done_at
    } else if st.stack == seq![PFrame::DeclRest { top: true }] {
        Some(ts.len() as int)
    } else {
        None
    }
}

/// What parsing a declaration value from these tokens yields.
pub open spec fn spec_parse_toks(ts: Seq<TokV>) -> Option<SpecifiedValueV> {
    match p_outcome(ts) {
        Some(k) => {
            let st = p_run(ts, ts.len() as int);
            Some(
                SpecifiedValueV {
                    css: concat_texts(ts.subrange(0, k)),
                    first_token_type: st.first,
                    last_token_type: st.last,
                    references: st.refs,
                },
            )
        },
        None => None,
    }
}

/// What parsing a declaration value from input bytes yields: the text up to
/// a top-level `!` or `;`, its first and last token categories, and the
/// names referenced through `var()`.
pub open spec fn spec_parse(s: Seq<u8>) -> Option<SpecifiedValueV> {
    if clean_toks(s) {
        spec_parse_toks(toks_of(s))
    } else {
        None
    }
}

/// The executable state of the grammar walk.
pub struct PState {
    pub stack: Vec<PFrame>,
    pub refs: NameSet,
    pub first: SerType,
    pub last: SerType,
    pub failed: bool,
    pub done_at: Option<usize>,
}

impl View for PState {
    type V = PStateV;

    open spec fn view(&self) -> PStateV {
        PStateV {
            stack: self.stack@,
            refs: self.refs@,
            first: self.first,
            last: self.last,
            failed: self.failed,
            done_at: match self.done_at {
                Some(i) => Some(i as int),
                None => None,
            },
        }
    }
}

impl PState {
    /// The initial state.
    fn init() -> (r: PState)
        ensures
            r@ == p_init(),
    {
        let mut stack: Vec<PFrame> = Vec::new();
        stack.push(PFrame::DeclFirst { top: true });
        let r = PState {
            stack,
            refs: NameSet::new(),
            first: SerType::Nothing,
            last: SerType::Nothing,
            failed: false,
            done_at: None,
        };
        proof {
            assert(r@.stack =~= p_init().stack);
        }
        r
    }

    /// Record first/last at the top level.
    fn upd_top(&mut self, top: bool, t: &Tok)
        ensures
            final(self)@ == p_upd_top(old(self)@, top, t@),
    {
        if top {
            let s = ser_of(t);
            if matches!(self.first, SerType::Nothing) {
                self.first = s;
            }
            self.last = s;
        }
    }

    /// Fail.
    fn fail(&mut self)
        ensures
            final(self)@ == p_fail(old(self)@),
    {
        self.failed = true;
    }

    /// Handle a token under a `DeclRest` frame (already on the stack).
    fn decl_rest(&mut self, top: bool, t: &Tok, i: usize)
        requires
            old(self)@.stack.len() > 0,
        ensures
            final(self)@ == p_decl_rest(old(self)@, top, t@, i as int),
    {
        let terminator = matches!(t.kind, TokKind::SemicolonTok) || (matches!(
            t.kind,
            TokKind::DelimTok,
        ) && t.ch == '!');
        if terminator {
            if top {
                self.done_at = Some(i);
            } else {
                self.fail();
            }
        } else if matches!(t.kind, TokKind::BadUrlTok | TokKind::BadStringTok | TokKind::CloseTok) {
            self.fail();
        } else if matches!(t.kind, TokKind::FunctionTok) && is_var_keyword(&t.name) {
            self.upd_top(top, t);
            self.stack.push(PFrame::VarName);
        } else if is_open(t.kind) {
            self.upd_top(top, t);
            self.stack.push(PFrame::NormalBlk);
        } else if matches!(t.kind, TokKind::BlockEndTok) {
            if top {
                self.fail();
            } else {
                self.stack.pop();
                proof {
                    assert(self@.stack =~= old(self)@.stack.drop_last());
                }
            }
        } else {
            self.upd_top(top, t);
        }
    }

    /// One step of the grammar walk.
    fn step(&mut self, t: &Tok, i: usize)
        ensures
            final(self)@ == p_step(old(self)@, t@, i as int),
    {
        if self.failed || self.done_at.is_some() || self.stack.len() == 0 {
            return;
        }
        let fi = self.stack.len() - 1;
        let frame = self.stack[fi];
        match frame {
            PFrame::DeclFirst { top } => {
                if matches!(t.kind, TokKind::CommentTok) {
                    self.upd_top(top, t);
                } else if matches!(t.kind, TokKind::SemicolonTok | TokKind::BlockEndTok) || (
                matches!(t.kind, TokKind::DelimTok) && t.ch == '!') {
                    self.fail();
                } else {
                    self.stack.set(fi, PFrame::DeclRest { top });
                    self.decl_rest(top, t, i);
                }
            },
            PFrame::DeclRest { top } => {
                self.decl_rest(top, t, i);
            },
            PFrame::NormalBlk => {
                if matches!(
                    t.kind,
                    TokKind::BadUrlTok | TokKind::BadStringTok | TokKind::CloseTok,
                ) {
                    self.fail();
                } else if matches!(t.kind, TokKind::FunctionTok) && is_var_keyword(&t.name) {
                    self.stack.push(PFrame::VarName);
                } else if is_open(t.kind) {
                    self.stack.push(PFrame::NormalBlk);
                } else if matches!(t.kind, TokKind::BlockEndTok) {
                    self.stack.pop();
                    proof {
                        assert(self@.stack =~= old(self)@.stack.drop_last());
                    }
                }
            },
            PFrame::VarName => {
                if matches!(t.kind, TokKind::WhiteSpaceTok | TokKind::CommentTok) {
                } else if matches!(t.kind, TokKind::IdentTok) {
                    match crate::parse_name(&t.name) {
                        Ok(name) => {
                            self.stack.set(fi, PFrame::VarAfterName);
                            self.refs.insert(&name);
                        },
                        Err(_) => {
                            self.fail();
                        },
                    }
                } else {
                    self.fail();
                }
            },
            PFrame::VarAfterName => {
                if matches!(t.kind, TokKind::WhiteSpaceTok | TokKind::CommentTok) {
                } else if matches!(t.kind, TokKind::CommaTok) {
                    self.stack.set(fi, PFrame::DeclFirst { top: false });
                } else if matches!(t.kind, TokKind::BlockEndTok) {
                    self.stack.pop();
                    proof {
                        assert(self@.stack =~= old(self)@.stack.drop_last());
                    }
                } else if is_open(t.kind) {
                    self.stack.set(fi, PFrame::VarEnd);
                    self.stack.push(PFrame::SkipBlock);
                } else {
                    self.stack.set(fi, PFrame::VarEnd);
                }
            },
            PFrame::VarEnd => {
                if matches!(t.kind, TokKind::WhiteSpaceTok | TokKind::CommentTok) {
                } else if matches!(t.kind, TokKind::BlockEndTok) {
                    self.stack.pop();
                    proof {
                        assert(self@.stack =~= old(self)@.stack.drop_last());
                    }
                } else {
                    self.fail();
                }
            },
            PFrame::SkipBlock => {
                if is_open(t.kind) {
                    self.stack.push(PFrame::SkipBlock);
                } else if matches!(t.kind, TokKind::BlockEndTok) {
                    self.stack.pop();
                    proof {
                        assert(self@.stack =~= old(self)@.stack.drop_last());
                    }
                }
            },
        }
    }
}

/// Run the grammar walk over a token list.
fn run_machine(ts: &Vec<Tok>) -> (r: PState)
    ensures
        r@ == p_run(toks_view(ts@), ts@.len() as int),
{
    let ghost tv = toks_view(ts@);
    let mut st = PState::init();
    let mut i: usize = 0;
    while i < ts.len()
        invariant
            0 <= i <= ts.len(),
            tv == toks_view(ts@),
            tv.len() == ts@.len(),
            st@ == p_run(tv, i as int),
        decreases ts.len() - i,
    {
        proof {
            assert(tv[i as int] == ts@[i as int]@);
        }
        st.step(&ts[i], i);
        i = i + 1;
    }
    st
}

/// Concatenate the texts of the first `k` tokens.
fn concat_prefix(ts: &Vec<Tok>, k: usize) -> (r: Vec<u8>)
    requires
        k <= ts@.len(),
    ensures
        r@ == concat_texts(toks_view(ts@).subrange(0, k as int)),
{
    let ghost tv = toks_view(ts@);
    let mut out: Vec<u8> = Vec::new();
    let mut i: usize = 0;
    while i < k
        invariant
            0 <= i <= k <= ts@.len(),
            tv == toks_view(ts@),
            tv.len() == ts@.len(),
            out@ == concat_texts(tv.subrange(0, i as int)),
        decreases k - i,
    {
        proof {
            assert(tv[i as int] == ts@[i as int]@);
            assert(tv.subrange(0, i + 1).drop_last() =~= tv.subrange(0, i as int));
            assert(tv.subrange(0, i + 1).last() == tv[i as int]);
        }
        crate::bytes::push_bytes(&mut out, &ts[i].text);
        i = i + 1;
    }
    out
}

/// Concatenation splits over sequence concatenation.
pub proof fn lemma_concat_app(a: Seq<TokV>, b: Seq<TokV>)
    ensures
        concat_texts(a + b) == concat_texts(a) + concat_texts(b),
    decreases b.len(),
{
    if b.len() == 0 {
        assert(a + b =~= a);
        assert(concat_texts(b) =~= Seq::<u8>::empty());
        assert(concat_texts(a) + concat_texts(b) =~= concat_texts(a));
    } else {
        lemma_concat_app(a, b.drop_last());
        assert((a + b).drop_last() =~= a + b.drop_last());
        assert((a + b).last() == b.last());
        assert(concat_texts(a) + concat_texts(b.drop_last()) + b.last().text =~= concat_texts(a)
            + concat_texts(b));
    }
}

/// A prefix of the token list contributes a prefix of the input text.
pub proof fn lemma_concat_prefix(ts: Seq<TokV>, k: int)
    requires
        0 <= k <= ts.len(),
    ensures
        concat_texts(ts.subrange(0, k)) == concat_texts(ts).subrange(
            0,
            concat_texts(ts.subrange(0, k)).len() as int,
        ),
{
    assert(ts =~= ts.subrange(0, k) + ts.subrange(k, ts.len() as int));
    lemma_concat_app(ts.subrange(0, k), ts.subrange(k, ts.len() as int));
    assert(concat_texts(ts.subrange(0, k)) =~= concat_texts(ts).subrange(
        0,
        concat_texts(ts.subrange(0, k)).len() as int,
    ));
}

/// Parse a custom-property declaration value.
///
/// Succeeds exactly when the tokenization is clean and the declaration-value
/// grammar accepts the input; the result then carries the text up to a
/// top-level `!` or `;` (a byte prefix of the input), the first and last
/// top-level token categories, and the set of referenced names.
pub fn parse(css: &Vec<u8>) -> (r: Result<SpecifiedValue, ()>)
    ensures
        r matches Ok(v) ==> spec_parse(css@) == Some(v@),
        r is Err <==> spec_parse(css@) is None,
        r matches Ok(v) ==> v@.css == css@.subrange(0, v@.css.len() as int),
{
    let ts = match tokenize(css) {
        Some(ts) => ts,
        None => {
            return Err(());
        },
    };
    let st = run_machine(&ts);
    if st.failed {
        return Err(());
    }
    let k: usize = match st.done_at {
        Some(k) => k,
        None => {
            let ok = st.stack.len() == 1 && matches!(
                st.stack[0],
                PFrame::DeclRest { top: true },
            );
            if !ok {
                proof {
                    let stv = p_run(toks_view(ts@), ts@.len() as int);
                    assert(st@.stack != seq![PFrame::DeclRest { top: true }]) by {
                        if st@.stack.len() == 1 && st@.stack[0] == (PFrame::DeclRest {
                            top: true,
                        }) {
                            assert(st@.stack =~= seq![PFrame::DeclRest { top: true }]);
                        }
                    }
                }
                return Err(());
            }
            proof {
                assert(st@.stack =~= seq![PFrame::DeclRest { top: true }]);
            }
            ts.len()
        },
    };
    proof {
        assert(k <= ts@.len()) by {
            lemma_done_at_bounded(toks_view(ts@), ts@.len() as int);
        }
    }
    let text = concat_prefix(&ts, k);
    proof {
        lemma_concat_prefix(toks_view(ts@), k as int);
    }
    Ok(
        SpecifiedValue {
            css: text,
            first_token_type: st.first,
            last_token_type: st.last,
            references: st.refs,
        },
    )
}

/// A recorded terminator index is in bounds.
proof fn lemma_done_at_bounded(ts: Seq<TokV>, n: int)
    requires
        0 <= n <= ts.len(),
    ensures
        match p_run(ts, n).done_at {
            Some(k) => 0 <= k < n,
            None => true,
        },
    decreases n,
{
    if n > 0 {
        lemma_done_at_bounded(ts, n - 1);
    }
}

/// Parse a declaration value, collecting references into an optional sink.
///
/// Returns the first and last top-level token categories; when a sink is
/// present and parsing succeeds, the referenced names are added to it.
pub fn parse_declaration_value(css: &Vec<u8>, references: &mut Option<NameSet>) -> (r: Result<
    (SerType, SerType),
    (),
>)
    ensures
        r matches Ok(fl) ==> (spec_parse(css@) matches Some(v) && fl.0 == v.first_token_type
            && fl.1 == v.last_token_type),
        r is Err <==> spec_parse(css@) is None,
        (*old(references)) is None ==> (*final(references)) is None,
        r is Err ==> *final(references) == *old(references),
        (r is Ok && (*old(references)) is Some) ==> ((*final(references)) is Some
            && ((*final(references))->Some_0)@ == ((*old(references))->Some_0)@.union(
            spec_parse(css@)->Some_0.references,
        )),
{
    match parse(css) {
        Ok(v) => {
            match references {
                Some(sink) => {
                    let ghost s0 = sink@;
                    let n = v.references.count();
                    let mut i: usize = 0;
                    while i < n
                        invariant
                            0 <= i <= n,
                            n == v.references.items_seq().len(),
                            forall|k: Seq<u8>|
                                sink@.contains(k) <==> s0.contains(k) || exists|j: int|
                                    0 <= j < i && v.references.items_seq()[j] == k,
                        decreases n - i,
                    {
                        let name = v.references.at(i);
                        sink.insert(name);
                        proof {
                            assert forall|k: Seq<u8>| sink@.contains(k) implies (s0.contains(k)
                                || exists|j: int|
                                0 <= j < i + 1 && v.references.items_seq()[j] == k) by {
                                if k == name@ {
                                    assert(v.references.items_seq()[i as int] == k);
                                }
                            }
                            assert forall|k: Seq<u8>| (s0.contains(k) || exists|j: int|
                                0 <= j < i + 1 && v.references.items_seq()[j] == k)
                                implies sink@.contains(k) by {
                                if !s0.contains(k) {
                                    let j = choose|j: int|
                                        0 <= j < i + 1 && v.references.items_seq()[j] == k;
                                    if j < i {
                                        assert(sink@.contains(k));
                                    } else {
                                        assert(k == name@);
                                    }
                                }
                            }
                        }
                        i = i + 1;
                    }
                    proof {
                        v.references.lemma_items();
                        assert forall|k: Seq<u8>| sink@.contains(k) implies s0.union(
                            v.references@,
                        ).contains(k) by {
                            if !s0.contains(k) {
                                let j = choose|j: int|
                                    0 <= j < v.references.items_seq().len()
                                        && v.references.items_seq()[j] == k;
                                assert(v.references@.contains(k));
                            }
                        }
                        assert forall|k: Seq<u8>| s0.union(v.references@).contains(k)
                            implies sink@.contains(k) by {
                            if !s0.contains(k) {
                                assert(v.references@.contains(k));
                                let j = choose|j: int|
                                    0 <= j < v.references.items_seq().len()
                                        && v.references.items_seq()[j] == k;
                                assert(0 <= j < i && v.references.items_seq()[j] == k);
                            }
                            assert(s0.contains(k) || exists|j: int|
                                0 <= j < i && v.references.items_seq()[j] == k);
                        }
                        assert(sink@ =~= s0.union(v.references@));
                    }
                },
                None => {},
            }
            Ok((v.first_token_type, v.last_token_type))
        },
        Err(_) => Err(()),
    }
}

} // verus!
