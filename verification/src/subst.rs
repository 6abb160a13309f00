//! The memoizing `var()` substitution engine.
//!
//! Substitution walks the token list of a value, copying plain token runs
//! verbatim and replacing each `var()` function by the referenced
//! variable's computed value, or by its fallback when the reference cannot
//! be resolved.  Results are memoized: once a name's computed value is
//! recorded it is never recomputed nor changed, and names that fail are
//! recorded as invalid.  Fragments are joined through `spec_push`, which
//! inserts `/**/` exactly where adjacent token categories would fuse.
//!
//! The engine is specified by a token-level state machine (`s_step`,
//! `s_run`) and a per-name resolution function (`s_one`); the executable
//! code mirrors them step for step.  Recursion through variable references
//! carries fuel: one unit per name whose value is not yet memoized.  The
//! callers supply one unit per map entry, which a reference chain over
//! distinct, cycle-free names can never exhaust; a value whose resolution
//! would need more is treated as invalid at computed-value time.

use vstd::prelude::*;
use crate::sertype::SerType;
use crate::tokens::{
    Tok, TokV, TokKind, toks_of, toks_view, tokenize, clean_toks, concat_texts, spec_ser_of,
    ser_of, spec_is_open, is_open, depth_prefix,
};
use crate::maps::{NameMap, NameSet};
use crate::value::{
    ComputedValue, ComputedValueV, BorrowedSpecifiedValue, BorrowedSpecifiedValueV, spec_push,
    spec_empty_value,
};
use crate::cascade::{SpecifiedMap, ComputedMap};
use crate::bytes::{spec_is_var_keyword, is_var_keyword};
use crate::spec_parse_name;

verus! {

/// One frame of the substitution walk.
#[derive(Clone, Copy, PartialEq, Eq, Structural, Debug)]
pub enum SFrame {
    /// An ordinary nested block; the plain run continues through it.
    Plain,
    /// Inside `var(`, expecting the identifier.
    VarIdent,
    /// The reference failed to resolve; a comma must follow.
    VarComma,
    /// After the comma: the fallback needs its first token.
    VarFallbackFirst,
    /// Substituting inside the fallback.
    VarFallback,
    /// The reference resolved; the rest of the `var()` block is skipped.
    VarSkip,
    /// A nested block skipped wholesale.
    RawSkip,
}

/// The state of the substitution walk.
pub struct SStateV {
    pub frames: Seq<SFrame>,
    /// Token index where the pending plain run starts.
    pub pos_idx: int,
    /// The run's first-token category.
    pub pos_ser: SerType,
    /// The current level's last-token category.
    pub last: SerType,
    /// Reseat the run at the next token.
    pub pending: bool,
    pub acc: ComputedValueV,
    pub computed: Map<Seq<u8>, ComputedValueV>,
    pub invalid: Set<Seq<u8>>,
    pub failed: bool,
}

/// The text of the token run `[a, b)`, empty for a hollow range.
pub open spec fn run_text(ts: Seq<TokV>, a: int, b: int) -> Seq<u8> {
    if 0 <= a <= b <= ts.len() {
        concat_texts(ts.subrange(a, b))
    } else {
        Seq::empty()
    }
}

/// The result of resolving one name.
pub struct SubstOut {
    pub computed: Map<Seq<u8>, ComputedValueV>,
    pub invalid: Set<Seq<u8>>,
    pub acc: ComputedValueV,
    /// The last-token category pushed, or `None` for invalid at
    /// computed-value time.
    pub result: Option<SerType>,
}

/// The machine state at the start of one value's substitution.
pub open spec fn s_init(
    first: SerType,
    computed: Map<Seq<u8>, ComputedValueV>,
    invalid: Set<Seq<u8>>,
) -> SStateV {
    SStateV {
        frames: Seq::empty(),
        pos_idx: 0,
        pos_ser: first,
        last: SerType::Nothing,
        pending: false,
        acc: spec_empty_value(),
        computed: computed,
        invalid: invalid,
        failed: false,
    }
}

/// The trailing plain run appended after the walk.
pub open spec fn s_finalize(ts: Seq<TokV>, st: SStateV) -> ComputedValueV {
    if st.pending {
        spec_push(st.acc, run_text(ts, ts.len() as int, ts.len() as int), SerType::Nothing, st.last)
    } else {
        spec_push(st.acc, run_text(ts, st.pos_idx, ts.len() as int), st.pos_ser, st.last)
    }
}

/// Resolving one name against the current memoized state: a memoized value
/// is pushed as is; a name known invalid fails; a value with references is
/// substituted recursively, falling back to the inherited value, else
/// recorded invalid; a value without references is copied verbatim.
pub open spec fn s_one(
    name: Seq<u8>,
    value: BorrowedSpecifiedValueV,
    specified: Map<Seq<u8>, BorrowedSpecifiedValueV>,
    inherited: Option<Map<Seq<u8>, ComputedValueV>>,
    computed: Map<Seq<u8>, ComputedValueV>,
    invalid: Set<Seq<u8>>,
    acc: ComputedValueV,
    use_acc: bool,
    fuel: nat,
) -> SubstOut
    decreases fuel, 0nat, 0nat,
{
    if computed.contains_key(name) {
        let cv = computed[name];
        SubstOut {
            computed,
            invalid,
            acc: if use_acc {
                spec_push(acc, cv.css, cv.first_token_type, cv.last_token_type)
            } else {
                acc
            },
            result: Some(cv.last_token_type),
        }
    } else if invalid.contains(name) {
        SubstOut { computed, invalid, acc, result: None }
    } else if (value.references matches Some(r) && r != Set::<Seq<u8>>::empty()) {
        if fuel == 0 || !clean_toks(value.css) {
            s_one_fail(name, inherited, computed, invalid, acc, use_acc)
        } else {
            let ts = toks_of(value.css);
            let st1 = s_run(
                ts,
                s_init(value.first_token_type, computed, invalid),
                ts.len() as int,
                specified,
                inherited,
                (fuel - 1) as nat,
            );
            if st1.failed {
                s_one_fail(name, inherited, st1.computed, st1.invalid, acc, use_acc)
            } else {
                let cv = s_finalize(ts, st1);
                SubstOut {
                    computed: st1.computed.insert(name, cv),
                    invalid: st1.invalid,
                    acc: if use_acc {
                        spec_push(acc, cv.css, cv.first_token_type, cv.last_token_type)
                    } else {
                        acc
                    },
                    result: Some(cv.last_token_type),
                }
            }
        }
    } else {
        let cv = ComputedValueV {
            css: value.css,
            first_token_type: value.first_token_type,
            last_token_type: value.last_token_type,
        };
        SubstOut {
            computed: computed.insert(name, cv),
            invalid,
            acc: if use_acc {
                spec_push(acc, cv.css, cv.first_token_type, cv.last_token_type)
            } else {
                acc
            },
            result: Some(cv.last_token_type),
        }
    }
}

/// A value invalid at computed-value time: the inherited value stands in
/// when there is one; otherwise the name is recorded invalid.
pub open spec fn s_one_fail(
    name: Seq<u8>,
    inherited: Option<Map<Seq<u8>, ComputedValueV>>,
    computed: Map<Seq<u8>, ComputedValueV>,
    invalid: Set<Seq<u8>>,
    acc: ComputedValueV,
    use_acc: bool,
) -> SubstOut {
    if (inherited matches Some(im) && im.contains_key(name)) {
        let cv = inherited->Some_0[name];
        SubstOut {
            computed: computed.insert(name, cv),
            invalid,
            acc: if use_acc {
                spec_push(acc, cv.css, cv.first_token_type, cv.last_token_type)
            } else {
                acc
            },
            result: Some(cv.last_token_type),
        }
    } else {
        SubstOut { computed, invalid: invalid.insert(name), acc, result: None }
    }
}

/// Handling of one token at a plain run level (the root, an ordinary
/// nested block, or a fallback), except for the end of the level.
///
/// A `var()` function flushes the plain run gathered so far; a run holding
/// no token contributes nothing, so that adjacent `var()` functions are
/// joined by exactly one separator when their values would fuse.  An
/// ordinary nested block starts a fresh level whose last-token category is
/// the sentinel, so no separator is inserted against tokens outside it.
pub open spec fn s_level(st: SStateV, t: TokV, i: int, ts: Seq<TokV>) -> SStateV {
    if t.kind == TokKind::FunctionTok && spec_is_var_keyword(t.name) {
        SStateV {
            acc: if st.pos_idx == i {
                st.acc
            } else {
                spec_push(st.acc, run_text(ts, st.pos_idx, i), st.pos_ser, st.last)
            },
            frames: st.frames.push(SFrame::VarIdent),
            ..st
        }
    } else if spec_is_open(t.kind) {
        SStateV { frames: st.frames.push(SFrame::Plain), last: SerType::Nothing, ..st }
    } else {
        SStateV { last: spec_ser_of(t.kind, t.ch), ..st }
    }
}

/// One step of the substitution walk on token `t` at index `i`.
pub open spec fn s_step(
    ts: Seq<TokV>,
    st0: SStateV,
    i: int,
    specified: Map<Seq<u8>, BorrowedSpecifiedValueV>,
    inherited: Option<Map<Seq<u8>, ComputedValueV>>,
    fuel: nat,
) -> SStateV
    decreases fuel, 0nat, 1nat,
{
    if st0.failed {
        st0
    } else {
        let t = ts[i];
        let st = if st0.pending {
            SStateV {
                pos_idx: i,
                pos_ser: if t.kind == TokKind::BlockEndTok {
                    SerType::Nothing
                } else {
                    spec_ser_of(t.kind, t.ch)
                },
                pending: false,
                ..st0
            }
        } else {
            st0
        };
        if st.frames.len() == 0 {
            if t.kind == TokKind::BlockEndTok {
                SStateV { failed: true, ..st }
            } else {
                s_level(st, t, i, ts)
            }
        } else {
            let top = st.frames.len() - 1;
            match st.frames.last() {
                SFrame::Plain => {
                    if t.kind == TokKind::BlockEndTok {
                        SStateV { frames: st.frames.drop_last(), last: SerType::Other, ..st }
                    } else {
                        s_level(st, t, i, ts)
                    }
                },
                SFrame::VarIdent => {
                    if t.kind == TokKind::WhiteSpaceTok || t.kind == TokKind::CommentTok {
                        st
                    } else if t.kind == TokKind::IdentTok && spec_parse_name(t.name) is Some {
                        let name = spec_parse_name(t.name)->Some_0;
                        if specified.contains_key(name) {
                            let out = s_one(
                                name,
                                specified[name],
                                specified,
                                inherited,
                                st.computed,
                                st.invalid,
                                st.acc,
                                true,
                                fuel,
                            );
                            match out.result {
                                Some(tt) => SStateV {
                                    computed: out.computed,
                                    invalid: out.invalid,
                                    acc: out.acc,
                                    last: tt,
                                    frames: st.frames.update(top, SFrame::VarSkip),
                                    ..st
                                },
                                None => SStateV {
                                    computed: out.computed,
                                    invalid: out.invalid,
                                    acc: out.acc,
                                    frames: st.frames.update(top, SFrame::VarComma),
                                    ..st
                                },
                            }
                        } else if st.computed.contains_key(name) {
                            let cv = st.computed[name];
                            SStateV {
                                acc: spec_push(
                                    st.acc,
                                    cv.css,
                                    cv.first_token_type,
                                    cv.last_token_type,
                                ),
                                last: cv.last_token_type,
                                frames: st.frames.update(top, SFrame::VarSkip),
                                ..st
                            }
                        } else {
                            SStateV { frames: st.frames.update(top, SFrame::VarComma), ..st }
                        }
                    } else {
                        SStateV { failed: true, ..st }
                    }
                },
                SFrame::VarComma => {
                    if t.kind == TokKind::WhiteSpaceTok || t.kind == TokKind::CommentTok {
                        st
                    } else if t.kind == TokKind::CommaTok {
                        SStateV { frames: st.frames.update(top, SFrame::VarFallbackFirst), ..st }
                    } else {
                        SStateV { failed: true, ..st }
                    }
                },
                SFrame::VarFallbackFirst => {
                    if t.kind == TokKind::WhiteSpaceTok || t.kind == TokKind::CommentTok {
                        st
                    } else if t.kind == TokKind::BlockEndTok {
                        SStateV { failed: true, ..st }
                    } else {
                        let st1 = SStateV {
                            pos_idx: i,
                            pos_ser: spec_ser_of(t.kind, t.ch),
                            last: SerType::Nothing,
                            frames: st.frames.update(top, SFrame::VarFallback),
                            ..st
                        };
                        s_level(st1, t, i, ts)
                    }
                },
                SFrame::VarFallback => {
                    if t.kind == TokKind::BlockEndTok {
                        SStateV {
                            acc: spec_push(
                                st.acc,
                                run_text(ts, st.pos_idx, i),
                                st.pos_ser,
                                st.last,
                            ),
                            frames: st.frames.drop_last(),
                            pending: true,
                            ..st
                        }
                    } else {
                        s_level(st, t, i, ts)
                    }
                },
                SFrame::VarSkip => {
                    if spec_is_open(t.kind) {
                        SStateV { frames: st.frames.push(SFrame::RawSkip), ..st }
                    } else if t.kind == TokKind::BlockEndTok {
                        SStateV { frames: st.frames.drop_last(), pending: true, ..st }
                    } else {
                        st
                    }
                },
                SFrame::RawSkip => {
                    if spec_is_open(t.kind) {
                        SStateV { frames: st.frames.push(SFrame::RawSkip), ..st }
                    } else if t.kind == TokKind::BlockEndTok {
                        SStateV { frames: st.frames.drop_last(), ..st }
                    } else {
                        st
                    }
                },
            }
        }
    }
}

/// The walk's state after the first `n` tokens.
pub open spec fn s_run(
    ts: Seq<TokV>,
    st0: SStateV,
    n: int,
    specified: Map<Seq<u8>, BorrowedSpecifiedValueV>,
    inherited: Option<Map<Seq<u8>, ComputedValueV>>,
    fuel: nat,
) -> SStateV
    decreases fuel, 1nat, n,
{
    if n <= 0 {
        st0
    } else {
        s_step(ts, s_run(ts, st0, n - 1, specified, inherited, fuel), n - 1, specified, inherited, fuel)
    }
}

/// Law: substitution is memoized, so each name's substitution body is
/// computed at most once.  Resolving any name never changes nor drops a
/// computed value already recorded, and resolving a name whose value is
/// recorded answers from the record, leaving the memoized state untouched.
pub proof fn lemma_one_memoized(
    name: Seq<u8>,
    value: BorrowedSpecifiedValueV,
    specified: Map<Seq<u8>, BorrowedSpecifiedValueV>,
    inherited: Option<Map<Seq<u8>, ComputedValueV>>,
    computed: Map<Seq<u8>, ComputedValueV>,
    invalid: Set<Seq<u8>>,
    acc: ComputedValueV,
    use_acc: bool,
    fuel: nat,
)
    ensures
        ({
            let out = s_one(name, value, specified, inherited, computed, invalid, acc, use_acc, fuel);
            &&& forall|k: Seq<u8>|
                #[trigger] computed.contains_key(k) ==> out.computed.contains_key(k)
                    && out.computed[k] == computed[k]
            &&& computed.contains_key(name) ==> out.computed == computed && out.invalid == invalid
                && out.result == Some(computed[name].last_token_type)
        }),
    decreases fuel, 0nat, 0nat,
{
    if computed.contains_key(name) {
    } else if invalid.contains(name) {
    } else if (value.references matches Some(r) && r != Set::<Seq<u8>>::empty()) {
        if fuel == 0 || !clean_toks(value.css) {
        } else {
            let ts = toks_of(value.css);
            let st0 = s_init(value.first_token_type, computed, invalid);
            let st1 = s_run(ts, st0, ts.len() as int, specified, inherited, (fuel - 1) as nat);
            lemma_run_memoized(ts, st0, ts.len() as int, specified, inherited, (fuel - 1) as nat);
            assert forall|k: Seq<u8>| #[trigger] computed.contains_key(k)
                implies st1.computed.contains_key(k) && st1.computed[k] == computed[k] by {
                assert(st0.computed.contains_key(k));
            }
        }
    } else {
    }
}

/// The walk never changes nor drops a computed value already recorded.
proof fn lemma_run_memoized(
    ts: Seq<TokV>,
    st0: SStateV,
    n: int,
    specified: Map<Seq<u8>, BorrowedSpecifiedValueV>,
    inherited: Option<Map<Seq<u8>, ComputedValueV>>,
    fuel: nat,
)
    ensures
        forall|k: Seq<u8>|
            #[trigger] st0.computed.contains_key(k) ==> s_run(
                ts,
                st0,
                n,
                specified,
                inherited,
                fuel,
            ).computed.contains_key(k) && s_run(ts, st0, n, specified, inherited, fuel).computed[k]
                == st0.computed[k],
    decreases fuel, 1nat, n,
{
    if n > 0 {
        lemma_run_memoized(ts, st0, n - 1, specified, inherited, fuel);
        lemma_step_memoized(ts, s_run(ts, st0, n - 1, specified, inherited, fuel), n - 1, specified, inherited, fuel);
    }
}

/// One step never changes nor drops a computed value already recorded.
proof fn lemma_step_memoized(
    ts: Seq<TokV>,
    st: SStateV,
    i: int,
    specified: Map<Seq<u8>, BorrowedSpecifiedValueV>,
    inherited: Option<Map<Seq<u8>, ComputedValueV>>,
    fuel: nat,
)
    ensures
        forall|k: Seq<u8>|
            #[trigger] st.computed.contains_key(k) ==> s_step(
                ts,
                st,
                i,
                specified,
                inherited,
                fuel,
            ).computed.contains_key(k) && s_step(ts, st, i, specified, inherited, fuel).computed[k]
                == st.computed[k],
    decreases fuel, 0nat, 1nat,
{
    if !st.failed && st.frames.len() > 0 && st.frames.last() == SFrame::VarIdent {
        let t = ts[i];
        if t.kind == TokKind::IdentTok && spec_parse_name(t.name) is Some {
            let name = spec_parse_name(t.name)->Some_0;
            if specified.contains_key(name) {
                let stm = if st.pending {
                    SStateV {
                        pos_idx: i,
                        pos_ser: if t.kind == TokKind::BlockEndTok {
                            SerType::Nothing
                        } else {
                            spec_ser_of(t.kind, t.ch)
                        },
                        pending: false,
                        ..st
                    }
                } else {
                    st
                };
                lemma_one_memoized(
                    name,
                    specified[name],
                    specified,
                    inherited,
                    stm.computed,
                    stm.invalid,
                    stm.acc,
                    true,
                    fuel,
                );
            }
        }
    }
}

/// No token of the list opens a `var()` function.
pub open spec fn no_var(ts: Seq<TokV>) -> bool {
    forall|i: int|
        0 <= i < ts.len() ==> !((#[trigger] ts[i]).kind == TokKind::FunctionTok
            && spec_is_var_keyword(ts[i].name))
}

/// Over a `var()`-free token list the walk only tracks nesting: the frames
/// are plain, the run never moves, and the accumulator and memoized state
/// stay untouched.
proof fn lemma_run_no_var(
    ts: Seq<TokV>,
    st0: SStateV,
    n: int,
    specified: Map<Seq<u8>, BorrowedSpecifiedValueV>,
    inherited: Option<Map<Seq<u8>, ComputedValueV>>,
    fuel: nat,
)
    requires
        no_var(ts),
        forall|m: int| 0 <= m <= ts.len() ==> depth_prefix(ts, m) >= 0,
        0 <= n <= ts.len(),
        st0.frames.len() == 0,
        !st0.pending,
        !st0.failed,
    ensures
        ({
            let st = s_run(ts, st0, n, specified, inherited, fuel);
            &&& st.frames.len() == depth_prefix(ts, n)
            &&& (forall|j: int| 0 <= j < st.frames.len() ==> st.frames[j] == SFrame::Plain)
            &&& st.pos_idx == st0.pos_idx
            &&& st.pos_ser == st0.pos_ser
            &&& !st.pending
            &&& !st.failed
            &&& st.acc == st0.acc
            &&& st.computed == st0.computed
            &&& st.invalid == st0.invalid
        }),
    decreases n,
{
    if n > 0 {
        lemma_run_no_var(ts, st0, n - 1, specified, inherited, fuel);
        let pre = s_run(ts, st0, n - 1, specified, inherited, fuel);
        let post = s_step(ts, pre, n - 1, specified, inherited, fuel);
        let t = ts[n - 1];
        assert(!(t.kind == TokKind::FunctionTok && spec_is_var_keyword(t.name)));
        if t.kind == TokKind::BlockEndTok {
            assert(depth_prefix(ts, n) >= 0);
            assert(pre.frames.len() >= 1);
            assert(pre.frames.last() == SFrame::Plain);
            assert(post.frames =~= pre.frames.drop_last());
        } else if spec_is_open(t.kind) {
            assert(post.frames =~= pre.frames.push(SFrame::Plain));
        } else {
            assert(post.frames =~= pre.frames);
        }
    }
}

/// Law: substituting text that holds no `var()` function returns the text
/// unchanged, whatever computed map it is run against.
pub proof fn lemma_substitute_identity(
    s: Seq<u8>,
    first: SerType,
    computed: Option<Map<Seq<u8>, ComputedValueV>>,
)
    requires
        clean_toks(s),
        no_var(toks_of(s)),
    ensures
        spec_substitute(s, first, computed) == Some(s),
{
    let ts = toks_of(s);
    let cm = match computed {
        Some(m) => m,
        None => Map::empty(),
    };
    let st0 = s_init(first, cm, Set::empty());
    lemma_run_no_var(ts, st0, ts.len() as int, Map::empty(), None, 0nat);
    let st1 = s_run(ts, st0, ts.len() as int, Map::empty(), None, 0nat);
    assert(ts.subrange(0, ts.len() as int) =~= ts);
    assert(run_text(ts, 0, ts.len() as int) == s);
    assert(s_finalize(ts, st1).css =~= s);
}

/// The inherited map's value, as the specs see it.
pub open spec fn spec_inh(inherited: &Option<ComputedMap>) -> Option<Map<Seq<u8>, ComputedValueV>> {
    match *inherited {
        Some(ref m) => Some(m@),
        None => None,
    }
}

/// The text of the token run `[a, b)`.
fn run_text_exec(ts: &Vec<Tok>, a: usize, b: usize) -> (r: Vec<u8>)
    ensures
        r@ == run_text(toks_view(ts@), a as int, b as int),
{
    let ghost tv = toks_view(ts@);
    let mut out: Vec<u8> = Vec::new();
    if a > b || b > ts.len() {
        return out;
    }
    let mut i: usize = a;
    proof {
        assert(out@ =~= concat_texts(tv.subrange(a as int, a as int)));
    }
    while i < b
        invariant
            a <= i <= b <= ts@.len(),
            tv == toks_view(ts@),
            tv.len() == ts@.len(),
            out@ == concat_texts(tv.subrange(a as int, i as int)),
        decreases b - i,
    {
        proof {
            assert(tv[i as int] == ts@[i as int]@);
            assert(tv.subrange(a as int, i + 1).drop_last() =~= tv.subrange(a as int, i as int));
            assert(tv.subrange(a as int, i + 1).last() == tv[i as int]);
        }
        crate::bytes::push_bytes(&mut out, &ts[i].text);
        i = i + 1;
    }
    out
}

/// Resolve one name, memoizing the outcome; mirrors `s_one`.
fn substitute_one(
    name: &Vec<u8>,
    value: &BorrowedSpecifiedValue,
    specified: &SpecifiedMap,
    inherited: &Option<ComputedMap>,
    computed: &mut ComputedMap,
    invalid: &mut NameSet,
    partial: &mut ComputedValue,
    use_partial: bool,
    fuel: usize,
) -> (r: Result<SerType, ()>)
    requires
        specified.wf(),
        old(computed).wf(),
        inherited matches Some(m) ==> m.wf(),
    ensures
        final(computed).wf(),
        ({
            let out = s_one(
                name@,
                value@,
                specified@,
                spec_inh(inherited),
                old(computed)@,
                old(invalid)@,
                old(partial)@,
                use_partial,
                fuel as nat,
            );
            &&& final(computed)@ == out.computed
            &&& final(invalid)@ == out.invalid
            &&& final(partial)@ == out.acc
            &&& (match r {
                Ok(t) => out.result == Some(t),
                Err(_) => out.result is None,
            })
        }),
    decreases fuel, 0int,
{
    match computed.get(name) {
        Some(cv) => {
            let c = cv.clone_value();
            if use_partial {
                partial.push_variable(&c);
            }
            return Ok(c.last_token_type);
        },
        None => {},
    }
    if invalid.contains(name) {
        return Err(());
    }
    let has_refs = match &value.references {
        Some(r) => !r.is_empty(),
        None => false,
    };
    if has_refs {
        if fuel == 0 {
            return resolve_fail(name, inherited, computed, invalid, partial, use_partial);
        }
        match tokenize(&value.css) {
            None => resolve_fail(name, inherited, computed, invalid, partial, use_partial),
            Some(ts) => {
                let mut inner = ComputedValue::empty();
                let stepped = run_subst(
                    &ts,
                    value.first_token_type,
                    specified,
                    inherited,
                    computed,
                    invalid,
                    &mut inner,
                    fuel - 1,
                );
                let (failed, last, pos_idx, pos_ser, pending) = stepped;
                if failed {
                    resolve_fail(name, inherited, computed, invalid, partial, use_partial)
                } else {
                    let from: usize = if pending {
                        ts.len()
                    } else {
                        pos_idx
                    };
                    let tail = run_text_exec(&ts, from, ts.len());
                    let first_ser = if pending {
                        SerType::Nothing
                    } else {
                        pos_ser
                    };
                    inner.push(&tail, first_ser, last);
                    let lastt = inner.last_token_type;
                    if use_partial {
                        partial.push_variable(&inner);
                    }
                    computed.insert(name, inner);
                    Ok(lastt)
                }
            },
        }
    } else {
        let cv = ComputedValue {
            css: crate::bytes::copy_bytes(&value.css),
            first_token_type: value.first_token_type,
            last_token_type: value.last_token_type,
        };
        let lastt = cv.last_token_type;
        if use_partial {
            partial.push_variable(&cv);
        }
        computed.insert(name, cv);
        Ok(lastt)
    }
}

/// A value invalid at computed-value time; mirrors `s_one_fail`.
fn resolve_fail(
    name: &Vec<u8>,
    inherited: &Option<ComputedMap>,
    computed: &mut ComputedMap,
    invalid: &mut NameSet,
    partial: &mut ComputedValue,
    use_partial: bool,
) -> (r: Result<SerType, ()>)
    requires
        old(computed).wf(),
        inherited matches Some(m) ==> m.wf(),
    ensures
        final(computed).wf(),
        ({
            let out = s_one_fail(
                name@,
                spec_inh(inherited),
                old(computed)@,
                old(invalid)@,
                old(partial)@,
                use_partial,
            );
            &&& final(computed)@ == out.computed
            &&& final(invalid)@ == out.invalid
            &&& final(partial)@ == out.acc
            &&& (match r {
                Ok(t) => out.result == Some(t),
                Err(_) => out.result is None,
            })
        }),
{
    match inherited {
        Some(im) => {
            match im.get(name) {
                Some(cv) => {
                    let c = cv.clone_value();
                    if use_partial {
                        partial.push_variable(&c);
                    }
                    let lastt = c.last_token_type;
                    computed.insert(name, c);
                    return Ok(lastt);
                },
                None => {},
            }
        },
        None => {},
    }
    invalid.insert(name);
    Err(())
}

/// Walk one token list, substituting `var()` functions; mirrors `s_run`.
///
/// Returns the failure flag, the last-token category, and the pending plain
/// run (start index, first-token category, reseat flag).
#[verifier::rlimit(100)]
fn run_subst(
    ts: &Vec<Tok>,
    first: SerType,
    specified: &SpecifiedMap,
    inherited: &Option<ComputedMap>,
    computed: &mut ComputedMap,
    invalid: &mut NameSet,
    acc: &mut ComputedValue,
    fuel: usize,
) -> (r: (bool, SerType, usize, SerType, bool))
    requires
        specified.wf(),
        old(computed).wf(),
        inherited matches Some(m) ==> m.wf(),
        old(acc)@ == spec_empty_value(),
    ensures
        final(computed).wf(),
        ({
            let stf = s_run(
                toks_view(ts@),
                s_init(first, old(computed)@, old(invalid)@),
                ts@.len() as int,
                specified@,
                spec_inh(inherited),
                fuel as nat,
            );
            &&& final(computed)@ == stf.computed
            &&& final(invalid)@ == stf.invalid
            &&& final(acc)@ == stf.acc
            &&& r.0 == stf.failed
            &&& r.1 == stf.last
            &&& r.2 as int == stf.pos_idx
            &&& r.3 == stf.pos_ser
            &&& r.4 == stf.pending
        }),
    decreases fuel, 1int,
{
    let ghost tv = toks_view(ts@);
    let ghost st0 = s_init(first, old(computed)@, old(invalid)@);
    let mut frames: Vec<SFrame> = Vec::new();
    let mut pos_idx: usize = 0;
    let mut pos_ser: SerType = first;
    let mut last: SerType = SerType::Nothing;
    let mut pending: bool = false;
    let mut failed: bool = false;
    let mut i: usize = 0;
    while i < ts.len()
        invariant
            0 <= i <= ts.len(),
            tv == toks_view(ts@),
            tv.len() == ts@.len(),
            specified.wf(),
            computed.wf(),
            inherited matches Some(m) ==> m.wf(),
            ({
                let st = s_run(tv, st0, i as int, specified@, spec_inh(inherited), fuel as nat);
                &&& frames@ == st.frames
                &&& pos_idx as int == st.pos_idx
                &&& pos_ser == st.pos_ser
                &&& last == st.last
                &&& pending == st.pending
                &&& failed == st.failed
                &&& acc@ == st.acc
                &&& computed@ == st.computed
                &&& invalid@ == st.invalid
            }),
        decreases ts.len() - i,
    {
        let ghost pre = s_run(tv, st0, i as int, specified@, spec_inh(inherited), fuel as nat);
        let ghost post = s_step(tv, pre, i as int, specified@, spec_inh(inherited), fuel as nat);
        proof {
            assert(tv[i as int] == ts@[i as int]@);
        }
        if !failed {
            let k = ts[i].kind;
            if pending {
                pos_idx = i;
                pos_ser = if matches!(k, TokKind::BlockEndTok) {
                    SerType::Nothing
                } else {
                    ser_of(&ts[i])
                };
                pending = false;
            }
            let ghost mid = if pre.pending {
                SStateV {
                    pos_idx: i as int,
                    pos_ser: if tv[i as int].kind == TokKind::BlockEndTok {
                        SerType::Nothing
                    } else {
                        spec_ser_of(tv[i as int].kind, tv[i as int].ch)
                    },
                    pending: false,
                    ..pre
                }
            } else {
                pre
            };
            if frames.len() == 0 {
                if matches!(k, TokKind::BlockEndTok) {
                    failed = true;
                } else {
                    if matches!(k, TokKind::FunctionTok) && is_var_keyword(&ts[i].name) {
                        if pos_idx != i {
                            let run = run_text_exec(ts, pos_idx, i);
                            acc.push(&run, pos_ser, last);
                        }
                        frames.push(SFrame::VarIdent);
                    } else if is_open(k) {
                        frames.push(SFrame::Plain);
                        last = SerType::Nothing;
                    } else {
                        last = ser_of(&ts[i]);
                    }
                    proof {
                        assert(frames@ =~= post.frames);
                    }
                }
            } else {
                let topi = frames.len() - 1;
                let frame = frames[topi];
                match frame {
                    SFrame::Plain => {
                        if matches!(k, TokKind::BlockEndTok) {
                            frames.pop();
                            last = SerType::Other;
                            proof {
                                assert(frames@ =~= mid.frames.drop_last());
                            }
                        } else {
                            if matches!(k, TokKind::FunctionTok) && is_var_keyword(&ts[i].name) {
                                if pos_idx != i {
                                    let run = run_text_exec(ts, pos_idx, i);
                                    acc.push(&run, pos_ser, last);
                                }
                                frames.push(SFrame::VarIdent);
                            } else if is_open(k) {
                                frames.push(SFrame::Plain);
                                last = SerType::Nothing;
                            } else {
                                last = ser_of(&ts[i]);
                            }
                            proof {
                                assert(frames@ =~= post.frames);
                            }
                        }
                    },
                    SFrame::VarIdent => {
                        if matches!(k, TokKind::WhiteSpaceTok | TokKind::CommentTok) {
                        } else if matches!(k, TokKind::IdentTok) {
                            match crate::parse_name(&ts[i].name) {
                                Err(_) => {
                                    failed = true;
                                },
                                Ok(name2) => {
                                    match specified.get(&name2) {
                                        Some(v) => {
                                            let res = substitute_one(
                                                &name2,
                                                v,
                                                specified,
                                                inherited,
                                                computed,
                                                invalid,
                                                acc,
                                                true,
                                                fuel,
                                            );
                                            match res {
                                                Ok(tt) => {
                                                    last = tt;
                                                    frames.set(topi, SFrame::VarSkip);
                                                },
                                                Err(_) => {
                                                    frames.set(topi, SFrame::VarComma);
                                                },
                                            }
                                            proof {
                                                assert(frames@ =~= post.frames);
                                            }
                                        },
                                        None => {
                                            let hit = computed.get(&name2).is_some();
                                            if hit {
                                                let c = match computed.get(&name2) {
                                                    Some(cv) => cv.clone_value(),
                                                    None => ComputedValue::empty(),
                                                };
                                                acc.push_variable(&c);
                                                last = c.last_token_type;
                                                frames.set(topi, SFrame::VarSkip);
                                            } else {
                                                frames.set(topi, SFrame::VarComma);
                                            }
                                            proof {
                                                assert(frames@ =~= post.frames);
                                            }
                                        },
                                    }
                                },
                            }
                        } else {
                            failed = true;
                        }
                    },
                    SFrame::VarComma => {
                        if matches!(k, TokKind::WhiteSpaceTok | TokKind::CommentTok) {
                        } else if matches!(k, TokKind::CommaTok) {
                            frames.set(topi, SFrame::VarFallbackFirst);
                        } else {
                            failed = true;
                        }
                        proof {
                            assert(frames@ =~= post.frames);
                        }
                    },
                    SFrame::VarFallbackFirst => {
                        if matches!(k, TokKind::WhiteSpaceTok | TokKind::CommentTok) {
                        } else if matches!(k, TokKind::BlockEndTok) {
                            failed = true;
                        } else {
                            pos_idx = i;
                            pos_ser = ser_of(&ts[i]);
                            last = SerType::Nothing;
                            frames.set(topi, SFrame::VarFallback);
                            if matches!(k, TokKind::FunctionTok) && is_var_keyword(&ts[i].name) {
                                if pos_idx != i {
                                    let run = run_text_exec(ts, pos_idx, i);
                                    acc.push(&run, pos_ser, last);
                                }
                                frames.push(SFrame::VarIdent);
                            } else if is_open(k) {
                                frames.push(SFrame::Plain);
                                last = SerType::Nothing;
                            } else {
                                last = ser_of(&ts[i]);
                            }
                            proof {
                                assert(frames@ =~= post.frames);
                            }
                        }
                    },
                    SFrame::VarFallback => {
                        if matches!(k, TokKind::BlockEndTok) {
                            let run = run_text_exec(ts, pos_idx, i);
                            acc.push(&run, pos_ser, last);
                            frames.pop();
                            pending = true;
                            proof {
                                assert(frames@ =~= mid.frames.drop_last());
                            }
                        } else {
                            if matches!(k, TokKind::FunctionTok) && is_var_keyword(&ts[i].name) {
                                if pos_idx != i {
                                    let run = run_text_exec(ts, pos_idx, i);
                                    acc.push(&run, pos_ser, last);
                                }
                                frames.push(SFrame::VarIdent);
                            } else if is_open(k) {
                                frames.push(SFrame::Plain);
                                last = SerType::Nothing;
                            } else {
                                last = ser_of(&ts[i]);
                            }
                            proof {
                                assert(frames@ =~= post.frames);
                            }
                        }
                    },
                    SFrame::VarSkip => {
                        if is_open(k) {
                            frames.push(SFrame::RawSkip);
                        } else if matches!(k, TokKind::BlockEndTok) {
                            frames.pop();
                            pending = true;
                            proof {
                                assert(frames@ =~= mid.frames.drop_last());
                            }
                        }
                        proof {
                            assert(frames@ =~= post.frames);
                        }
                    },
                    SFrame::RawSkip => {
                        if is_open(k) {
                            frames.push(SFrame::RawSkip);
                        } else if matches!(k, TokKind::BlockEndTok) {
                            frames.pop();
                            proof {
                                assert(frames@ =~= mid.frames.drop_last());
                            }
                        }
                        proof {
                            assert(frames@ =~= post.frames);
                        }
                    },
                }
            }
        }
        i = i + 1;
        proof {
            assert(s_run(tv, st0, i as int, specified@, spec_inh(inherited), fuel as nat) == post);
            assert(frames@ =~= post.frames);
        }
    }
    (failed, last, pos_idx, pos_ser, pending)
}

/// The memoized state after resolving the first `n` map entries in order.
pub open spec fn s_all(
    entries: Seq<(Seq<u8>, BorrowedSpecifiedValueV)>,
    specified: Map<Seq<u8>, BorrowedSpecifiedValueV>,
    inherited: Option<Map<Seq<u8>, ComputedValueV>>,
    n: int,
) -> (Map<Seq<u8>, ComputedValueV>, Set<Seq<u8>>)
    decreases entries.len() + 1, 0nat, n,
{
    if n <= 0 {
        (Map::empty(), Set::empty())
    } else {
        let prev = s_all(entries, specified, inherited, n - 1);
        let out = s_one(
            entries[n - 1].0,
            entries[n - 1].1,
            specified,
            inherited,
            prev.0,
            prev.1,
            spec_empty_value(),
            false,
            entries.len() as nat,
        );
        (out.computed, out.invalid)
    }
}

/// An identical copy of a computed map.
pub fn clone_computed_map(m: &ComputedMap) -> (r: ComputedMap)
    requires
        m.wf(),
    ensures
        r@ == m@,
        r.wf(),
{
    let ghost entries = m.entries_seq();
    let mut out: ComputedMap = NameMap::new();
    let n = m.count();
    let mut i: usize = 0;
    proof {
        m.lemma_entries();
        assert(out@ =~= crate::maps::map_of(entries.subrange(0, 0)));
    }
    while i < n
        invariant
            0 <= i <= n,
            n == entries.len(),
            entries == m.entries_seq(),
            m.wf(),
            out.wf(),
            out@ == crate::maps::map_of(entries.subrange(0, i as int)),
        decreases n - i,
    {
        let key = m.key_at(i);
        let val = m.val_at(i).clone_value();
        out.insert(key, val);
        proof {
            let prefix = entries.subrange(0, i as int);
            let prefix1 = entries.subrange(0, i + 1);
            assert(prefix1.drop_last() =~= prefix);
            assert(prefix1.last() == entries[i as int]);
        }
        i = i + 1;
    }
    proof {
        assert(entries.subrange(0, n as int) =~= entries);
    }
    out
}

/// Replace `var()` functions for all custom properties of the specified
/// map, in entry order.  A name that ends up invalid at computed-value time
/// is absent from the result.
pub fn substitute_all(specified_values_map: &SpecifiedMap, inherited: &Option<ComputedMap>) -> (r:
    ComputedMap)
    requires
        specified_values_map.wf(),
        inherited matches Some(m) ==> m.wf(),
    ensures
        r.wf(),
        r@ == s_all(
            specified_values_map.entries_seq(),
            specified_values_map@,
            spec_inh(inherited),
            specified_values_map.entries_seq().len() as int,
        ).0,
{
    let ghost entries = specified_values_map.entries_seq();
    let mut computed: ComputedMap = NameMap::new();
    let mut invalid = NameSet::new();
    let mut dummy = ComputedValue::empty();
    let fuel = specified_values_map.count();
    let n = fuel;
    let mut i: usize = 0;
    while i < n
        invariant
            0 <= i <= n,
            n == entries.len(),
            fuel == entries.len(),
            entries == specified_values_map.entries_seq(),
            specified_values_map.wf(),
            inherited matches Some(m) ==> m.wf(),
            computed.wf(),
            (computed@, invalid@) == s_all(
                entries,
                specified_values_map@,
                spec_inh(inherited),
                i as int,
            ),
            dummy@ == spec_empty_value(),
        decreases n - i,
    {
        let name = specified_values_map.key_at(i);
        let value = specified_values_map.val_at(i);
        let _ = substitute_one(
            name,
            value,
            specified_values_map,
            inherited,
            &mut computed,
            &mut invalid,
            &mut dummy,
            false,
            fuel,
        );
        i = i + 1;
    }
    computed
}

/// What substituting `var()` in arbitrary property text yields: the text
/// with each `var()` replaced by the named computed value (or, when absent,
/// its fallback), `/**/` inserted where adjacent tokens would fuse; nothing
/// when the text is invalid at computed-value time.
pub open spec fn spec_substitute(
    s: Seq<u8>,
    first: SerType,
    computed: Option<Map<Seq<u8>, ComputedValueV>>,
) -> Option<Seq<u8>> {
    if !clean_toks(s) {
        None
    } else {
        let ts = toks_of(s);
        let cm = match computed {
            Some(m) => m,
            None => Map::empty(),
        };
        let st1 = s_run(
            ts,
            s_init(first, cm, Set::empty()),
            ts.len() as int,
            Map::empty(),
            None,
            0nat,
        );
        if st1.failed {
            None
        } else {
            Some(s_finalize(ts, st1).css)
        }
    }
}

/// Replace `var()` functions for a non-custom property.
///
/// Each `var()` is resolved against the computed map, with the fallback
/// taking over for names the map lacks; the error means the input is
/// invalid at computed-value time (or its tokenization was not clean).
pub fn substitute(
    input: &Vec<u8>,
    first_token_type: SerType,
    computed_values_map: &Option<ComputedMap>,
) -> (r: Result<Vec<u8>, ()>)
    requires
        computed_values_map matches Some(m) ==> m.wf(),
    ensures
        r matches Ok(out) ==> spec_substitute(
            input@,
            first_token_type,
            spec_inh(computed_values_map),
        ) == Some(out@),
        r is Err <==> spec_substitute(input@, first_token_type, spec_inh(computed_values_map))
            is None,
{
    let ts = match tokenize(input) {
        Some(ts) => ts,
        None => {
            return Err(());
        },
    };
    let empty_specified: SpecifiedMap = NameMap::new();
    let no_inherited: Option<ComputedMap> = None;
    let mut computed: ComputedMap = match computed_values_map {
        Some(m) => clone_computed_map(m),
        None => NameMap::new(),
    };
    let mut invalid = NameSet::new();
    let mut acc = ComputedValue::empty();
    let stepped = run_subst(
        &ts,
        first_token_type,
        &empty_specified,
        &no_inherited,
        &mut computed,
        &mut invalid,
        &mut acc,
        0,
    );
    let (failed, last, pos_idx, pos_ser, pending) = stepped;
    if failed {
        return Err(());
    }
    let from: usize = if pending {
        ts.len()
    } else {
        pos_idx
    };
    let tail = run_text_exec(&ts, from, ts.len());
    let first_ser = if pending {
        SerType::Nothing
    } else {
        pos_ser
    };
    acc.push(&tail, first_ser, last);
    Ok(acc.to_css())
}

/// The relation `finish_cascade` establishes between the specified map, the
/// entry list of a cycle-pruned copy of it, and the resulting computed map:
/// the pruned entries are the specified ones minus cycle participants, the
/// pruned reference graph is acyclic, and the result is their substitution.
pub open spec fn spec_pruned_result(
    sm: Map<Seq<u8>, BorrowedSpecifiedValueV>,
    entries: Seq<(Seq<u8>, BorrowedSpecifiedValueV)>,
    inherited: Option<Map<Seq<u8>, ComputedValueV>>,
    result: Map<Seq<u8>, ComputedValueV>,
) -> bool {
    let pm = crate::maps::map_of(entries);
    &&& forall|x: int, y: int| 0 <= x < y < entries.len() ==> entries[x].0 != entries[y].0
    &&& forall|k: Seq<u8>| pm.contains_key(k) ==> sm.contains_key(k) && pm[k] == sm[k]
    &&& forall|k: Seq<u8>|
        sm.contains_key(k) && !pm.contains_key(k) ==> crate::cycles::spec_on_cycle(sm, k)
    &&& forall|k: Seq<u8>|
        #[trigger] pm.contains_key(k) ==> !crate::cycles::spec_on_cycle(pm, k)
    &&& result == s_all(entries, pm, inherited, entries.len() as int).0
}

/// Turn the per-element specified map into the element's computed map.
///
/// With no specified map the inherited computed map is returned unchanged.
/// Otherwise every variable on a reference cycle is removed and the rest
/// are substituted in entry order.
pub fn finish_cascade(
    specified_values_map: Option<SpecifiedMap>,
    inherited: &Option<ComputedMap>,
) -> (r: Option<ComputedMap>)
    requires
        specified_values_map matches Some(m) ==> m.wf(),
        inherited matches Some(m) ==> m.wf(),
    ensures
        r matches Some(m) ==> m.wf(),
        specified_values_map is None ==> (match (r, inherited) {
            (Some(ref a), Some(ref b)) => a@ == b@,
            (None, None) => true,
            _ => false,
        }),
        specified_values_map is Some ==> (r is Some && exists|entries: Seq<
            (Seq<u8>, BorrowedSpecifiedValueV),
        >|
            #[trigger] spec_pruned_result(
                (specified_values_map->Some_0)@,
                entries,
                spec_inh(inherited),
                (r->Some_0)@,
            )),
{
    match specified_values_map {
        Some(mut map) => {
            let ghost sm = map;
            crate::cycles::remove_cycles(&mut map);
            let computed = substitute_all(&map, inherited);
            proof {
                assert(map.wf());
                assert forall|k: Seq<u8>| map@.contains_key(k) implies sm@.contains_key(k)
                    && map@[k] == sm@[k] by {
                    assert(map@.contains_key(k));
                }
                assert forall|k: Seq<u8>|
                    sm@.contains_key(k) && !map@.contains_key(k)
                    implies crate::cycles::spec_on_cycle(sm@, k) by {
                    assert(sm@.contains_key(k));
                }
                assert(computed@ == s_all(
                    map.entries_seq(),
                    map@,
                    spec_inh(inherited),
                    map.entries_seq().len() as int,
                ).0);
                assert(specified_values_map matches Some(s0) && s0 == sm);
                assert(spec_pruned_result(
                    (specified_values_map->Some_0)@,
                    map.entries_seq(),
                    spec_inh(inherited),
                    computed@,
                ));
            }
            let result: Option<ComputedMap> = Some(computed);
            proof {
                assert(spec_pruned_result(
                    (specified_values_map->Some_0)@,
                    map.entries_seq(),
                    spec_inh(inherited),
                    (result->Some_0)@,
                ));
            }
            result
        },
        None => {
            match inherited {
                Some(m) => Some(clone_computed_map(m)),
                None => None,
            }
        },
    }
}

} // verus!
