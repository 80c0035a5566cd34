use vstd::prelude::*;

use crate::err::{ErrKind, ErrKindV, SpecErr};
use crate::prsrutil;
use crate::prsrutil::{
    cluster_stop, datas_of, find_char_from, find_sopt, find_sopt_from, lopt_shape, sep_chars,
    sopt_shape, split_lopt_res, split_sopt_res,
};
use crate::spec::{handler_total, Spec, SpecData, SpecDataV};

verus! {

/// Ghost mirror of the deterministic parser state: the registered
/// specification datas, the positional registration order, the token
/// list, and the cursor.
pub ghost struct EngineV {
    /// The datas of the registered specifications, in registration order.
    pub specs: Seq<SpecDataV>,
    /// Indices into `specs` of the positional specifications, in
    /// registration order, which is also matching order.
    pub posargs: Seq<int>,
    /// The token list.  Splitting compound tokens rewrites it in place.
    pub args: Seq<Seq<char>>,
    /// Index of the current token.
    pub curarg: int,
    /// Whether the separator has been seen: once set, every token is
    /// treated as positional.
    pub posplit: bool,
    /// How many positional specifications have been matched.
    pub posarg: int,
}

/// The index of the first specification carrying long option `name` at or
/// after `i`, or `specs.len()` when there is none.
pub open spec fn find_lopt_from(specs: Seq<SpecDataV>, name: Seq<char>, i: int) -> int
    decreases specs.len() - i,
{
    if i < 0 || i >= specs.len() {
        specs.len() as int
    } else if specs[i].lopt == Some(name) {
        i
    } else {
        find_lopt_from(specs, name, i + 1)
    }
}

/// The index of the first specification carrying long option `name`, or
/// `specs.len()` when there is none.
pub open spec fn find_lopt(specs: Seq<SpecDataV>, name: Seq<char>) -> int {
    find_lopt_from(specs, name, 0)
}

/// The index of the first specification carrying positional name `name`
/// at or after `i`, or `specs.len()` when there is none.
pub open spec fn find_name_from(specs: Seq<SpecDataV>, name: Seq<char>, i: int) -> int
    decreases specs.len() - i,
{
    if i < 0 || i >= specs.len() {
        specs.len() as int
    } else if specs[i].name == Some(name) {
        i
    } else {
        find_name_from(specs, name, i + 1)
    }
}

/// The index of the first specification carrying positional name `name`,
/// or `specs.len()` when there is none.
pub open spec fn find_name(specs: Seq<SpecDataV>, name: Seq<char>) -> int {
    find_name_from(specs, name, 0)
}

/// What one step of the parser does, as decided by the state alone.
pub ghost enum StepPlan {
    /// No token is left to classify (after possibly taking the
    /// separator); the step reports the end of the stream.
    Exhausted { e2: EngineV },
    /// The step fails with `err`, leaving state `e2` behind.
    Fail { e2: EngineV, err: ErrKindV },
    /// The step dispatches `payload` to specification `spec`, leaving
    /// state `e2` behind.
    Dispatch { e2: EngineV, spec: int, payload: Seq<Seq<char>> },
}

/// The tokens a matched specification consumes and the cursor position
/// after them: everything from the current token for a remainder capture;
/// otherwise exactly the fixed count, starting after the option token for
/// an option and at the current token for a positional.  Too few
/// remaining tokens is the missing-argument error.
pub open spec fn copyout_res(e: EngineV, j: int) -> Result<(Seq<Seq<char>>, int), ErrKindV> {
    let d = e.specs[j];
    if d.is_capture_rest() {
        Result::Ok((e.args.skip(e.curarg), e.args.len() as int))
    } else {
        let n = d.nargs_count();
        if d.is_opt() {
            if e.args.len() - e.curarg - 1 < n {
                Result::Err(ErrKindV::MissArg { spec: j })
            } else {
                Result::Ok((e.args.subrange(e.curarg + 1, e.curarg + 1 + n), e.curarg + 1 + n))
            }
        } else {
            if e.args.len() - e.curarg < n {
                Result::Err(ErrKindV::MissArg { spec: j })
            } else {
                Result::Ok((e.args.subrange(e.curarg, e.curarg + n), e.curarg + n))
            }
        }
    }
}

/// Dispatch of the option specification `j` at the current token.
pub open spec fn opt_dispatch(e: EngineV, j: int) -> StepPlan {
    match copyout_res(e, j) {
        Result::Err(err) => StepPlan::Fail { e2: e, err },
        Result::Ok((payload, cur2)) => StepPlan::Dispatch {
            e2: EngineV { curarg: cur2, ..e },
            spec: j,
            payload,
        },
    }
}

/// Dispatch of the positional specification `j` at the current token,
/// advancing the positional index.
pub open spec fn pos_dispatch(e: EngineV, j: int) -> StepPlan {
    match copyout_res(e, j) {
        Result::Err(err) => StepPlan::Fail { e2: e, err },
        Result::Ok((payload, cur2)) => StepPlan::Dispatch {
            e2: EngineV { curarg: cur2, posarg: e.posarg + 1, ..e },
            spec: j,
            payload,
        },
    }
}

/// The long-option branch of a step: split `--name=value` in place,
/// resolve the name, and dispatch, or fail with an unknown-option error
/// (leaving the split in place).
pub open spec fn long_step(e: EngineV) -> StepPlan {
    let t = e.args[e.curarg];
    let newargs = e.args.take(e.curarg) + split_lopt_res(t) + e.args.skip(e.curarg + 1);
    let e2 = EngineV { args: newargs, ..e };
    let t2 = newargs[e.curarg];
    let nm = t2.skip(2);
    let j = find_lopt(e.specs, nm);
    if j == e.specs.len() {
        StepPlan::Fail { e2, err: ErrKindV::UnknownOpt { name: nm } }
    } else {
        opt_dispatch(e2, j)
    }
}

/// The short-option branch of a step: split the cluster in place,
/// resolve the first flag character, and dispatch; a character that no
/// specification carries fails with an unknown-option error and leaves
/// the token list as it was.
pub open spec fn short_step(e: EngineV) -> StepPlan {
    let t = e.args[e.curarg];
    match split_sopt_res(t, e.specs) {
        Result::Err(c) => StepPlan::Fail { e2: e, err: ErrKindV::UnknownOpt { name: seq![c] } },
        Result::Ok(pieces) => {
            let newargs = e.args.take(e.curarg) + pieces + e.args.skip(e.curarg + 1);
            let e2 = EngineV { args: newargs, ..e };
            let t2 = newargs[e.curarg];
            let c = t2[1];
            let j = find_sopt(e.specs, c);
            if j == e.specs.len() {
                StepPlan::Fail { e2, err: ErrKindV::UnknownOpt { name: seq![c] } }
            } else {
                opt_dispatch(e2, j)
            }
        },
    }
}

/// The positional branch of a step: match the next unmatched positional
/// specification, or fail when none is left.
pub open spec fn pos_step(e: EngineV) -> StepPlan {
    if e.posarg >= e.posargs.len() {
        StepPlan::Fail { e2: e, err: ErrKindV::MissSpec }
    } else {
        pos_dispatch(e, e.posargs[e.posarg])
    }
}

/// What one step of the parser does: report exhaustion; take the
/// separator (once) and re-check; otherwise classify the current token as
/// a long option, a short option, or a positional, and dispatch it.
pub open spec fn step_plan(e: EngineV) -> StepPlan {
    if e.curarg >= e.args.len() {
        StepPlan::Exhausted { e2: e }
    } else {
        let e1 = if !e.posplit && e.args[e.curarg] == sep_chars() {
            EngineV { posplit: true, curarg: e.curarg + 1, ..e }
        } else {
            e
        };
        if e1.curarg >= e1.args.len() {
            StepPlan::Exhausted { e2: e1 }
        } else {
            let t = e1.args[e1.curarg];
            if !e1.posplit && lopt_shape(t) {
                long_step(e1)
            } else if !e1.posplit && sopt_shape(t) {
                short_step(e1)
            } else {
                pos_step(e1)
            }
        }
    }
}

/// The first required positional specification not yet matched, looking
/// from position `k` of the matching order on; `None` when every
/// unmatched positional specification is optional.
pub open spec fn first_required_from(e: EngineV, k: int) -> Option<int>
    decreases e.posargs.len() - k,
{
    if k < 0 || k >= e.posargs.len() {
        None
    } else if e.specs[e.posargs[k]].required {
        Some(e.posargs[k])
    } else {
        first_required_from(e, k + 1)
    }
}

/// A token's weight: one less than its length (zero for an empty token).
/// Splitting a compound token in place never increases the total weight
/// of the remaining tokens, and dispatching an option strictly decreases
/// it, which is what bounds the run loop.
pub open spec fn tok_weight(t: Seq<char>) -> nat {
    if t.len() == 0 {
        0
    } else {
        (t.len() - 1) as nat
    }
}

/// The total weight of a token list.
pub open spec fn weight(args: Seq<Seq<char>>) -> nat
    decreases args.len(),
{
    if args.len() == 0 {
        0
    } else {
        tok_weight(args[0]) + weight(args.drop_first())
    }
}

proof fn lemma_weight_concat(a: Seq<Seq<char>>, b: Seq<Seq<char>>)
    ensures
        weight(a + b) == weight(a) + weight(b),
    decreases a.len(),
{
    if a.len() == 0 {
        assert(a + b =~= b);
    } else {
        assert((a + b).drop_first() =~= a.drop_first() + b);
        lemma_weight_concat(a.drop_first(), b);
        assert((a + b)[0] == a[0]);
    }
}

proof fn lemma_weight_single(t: Seq<char>)
    ensures
        weight(seq![t]) == tok_weight(t),
{
    assert(seq![t].len() == 1);
    assert(seq![t][0] == t);
    assert(seq![t].drop_first() =~= Seq::<Seq<char>>::empty());
    assert(weight(Seq::<Seq<char>>::empty()) == 0);
}

/// The weight of a suffix splits at any interior position.
proof fn lemma_weight_suffix(s: Seq<Seq<char>>, a: int, b: int)
    requires
        0 <= a <= b <= s.len(),
    ensures
        weight(s.skip(a)) == weight(s.subrange(a, b)) + weight(s.skip(b)),
{
    assert(s.skip(a) =~= s.subrange(a, b) + s.skip(b));
    lemma_weight_concat(s.subrange(a, b), s.skip(b));
}

/// Dropping one token from the front of a suffix.
proof fn lemma_weight_unfold(s: Seq<Seq<char>>, i: int)
    requires
        0 <= i < s.len(),
    ensures
        weight(s.skip(i)) == tok_weight(s[i]) + weight(s.skip(i + 1)),
{
    lemma_weight_suffix(s, i, i + 1);
    assert(s.subrange(i, i + 1) =~= seq![s[i]]);
    lemma_weight_single(s[i]);
}

/// A list of two-character tokens weighs its length.
proof fn lemma_weight_two_char(s: Seq<Seq<char>>)
    requires
        forall|k: int| 0 <= k < s.len() ==> (#[trigger] s[k]).len() == 2,
    ensures
        weight(s) == s.len(),
    decreases s.len(),
{
    if s.len() > 0 {
        assert(forall|k: int|
            0 <= k < s.drop_first().len() ==> (#[trigger] s.drop_first()[k]).len() == 2);
        lemma_weight_two_char(s.drop_first());
    }
}

/// A dispatching step strictly decreases the lexicographic measure of
/// remaining token weight, remaining token count, and remaining
/// positional specifications.
proof fn lemma_step_progress(e: EngineV)
    requires
        0 <= e.curarg <= e.args.len(),
        0 <= e.posarg,
        forall|k: int|
            0 <= k < e.posargs.len() ==> 0 <= #[trigger] e.posargs[k] < e.specs.len()
                && e.specs[e.posargs[k]].is_pos(),
        step_plan(e) is Dispatch,
    ensures
        ({
            let e2 = step_plan(e)->Dispatch_e2;
            let m1 = weight(e.args.skip(e.curarg));
            let m1p = weight(e2.args.skip(e2.curarg));
            let m2 = e.args.len() - e.curarg;
            let m2p = e2.args.len() - e2.curarg;
            let m3 = e.posargs.len() - e.posarg;
            let m3p = e2.posargs.len() - e2.posarg;
            &&& m1p <= m1
            &&& m1p == m1 ==> m2p <= m2
            &&& (m1p == m1 && m2p == m2) ==> m3p < m3
        }),
{
    let e1 = if !e.posplit && e.args[e.curarg] == sep_chars() {
        EngineV { posplit: true, curarg: e.curarg + 1, ..e }
    } else {
        e
    };
    let sep_taken = !e.posplit && e.args[e.curarg] == sep_chars();
    if sep_taken {
        lemma_weight_unfold(e.args, e.curarg);
        assert(tok_weight(e.args[e.curarg]) == 1);
        assert(weight(e1.args.skip(e1.curarg)) + 1 == weight(e.args.skip(e.curarg)));
    }
    let cur = e1.curarg;
    let t = e1.args[cur];
    let e2 = step_plan(e)->Dispatch_e2;
    if !e1.posplit && lopt_shape(t) {
        // Option dispatch: the rewrite never gains weight, and the step
        // consumes at least the option token itself.
        let res = split_lopt_res(t);
        let newargs = e1.args.take(cur) + res + e1.args.skip(cur + 1);
        assert(newargs.skip(cur) =~= res + e1.args.skip(cur + 1));
        lemma_weight_concat(res, e1.args.skip(cur + 1));
        prsrutil::lemma_find_char_from(t, '=', 0);
        let i = find_char_from(t, '=', 0);
        assert(t[0] != '=' && t[1] != '=');
        assert(find_char_from(t, '=', 0) == find_char_from(t, '=', 1));
        assert(find_char_from(t, '=', 1) == find_char_from(t, '=', 2));
        prsrutil::lemma_find_char_from(t, '=', 2);
        if i == t.len() || i == 0 || i == t.len() - 1 {
            lemma_weight_single(t);
            assert(weight(res) <= tok_weight(t));
        } else {
            assert(res =~= seq![t.subrange(0, i)] + seq![t.subrange(i + 1, t.len() as int)]);
            lemma_weight_concat(seq![t.subrange(0, i)], seq![t.subrange(i + 1, t.len() as int)]);
            lemma_weight_single(t.subrange(0, i));
            lemma_weight_single(t.subrange(i + 1, t.len() as int));
            assert(weight(res) <= tok_weight(t));
        }
        assert(res.len() >= 1);
        assert(res[0].len() >= 2);
        assert(newargs[cur] == res[0]);
        lemma_weight_unfold(e1.args, cur);
        assert(weight(newargs.skip(cur)) <= weight(e1.args.skip(cur)));
        let e2s = EngineV { args: newargs, ..e1 };
        let nm = newargs[cur].skip(2);
        let j = find_lopt(e1.specs, nm);
        assert(step_plan(e) == opt_dispatch(e2s, j));
        assert(copyout_res(e2s, j) is Ok);
        assert(j != e1.specs.len());
        lemma_find_lopt_from(e1.specs, nm, 0);
        let d = e2s.specs[j];
        assert(d.lopt is Some);
        assert(d.is_opt());
        lemma_weight_unfold(newargs, cur);
        assert(tok_weight(newargs[cur]) >= 1);
        if d.is_capture_rest() {
            assert(e2 == (EngineV { curarg: newargs.len() as int, ..e2s }));
            assert(weight(newargs.skip(newargs.len() as int)) == 0) by {
                assert(newargs.skip(newargs.len() as int) =~= Seq::<Seq<char>>::empty());
            }
        } else {
            let n = d.nargs_count();
            assert(newargs.len() - cur - 1 >= n);
            assert(e2 == (EngineV { curarg: cur + 1 + n, ..e2s }));
            lemma_weight_suffix(newargs, cur + 1, cur + 1 + n);
        }
        assert(weight(e2.args.skip(e2.curarg)) < weight(e.args.skip(e.curarg)));
    } else if !e1.posplit && sopt_shape(t) {
        let pieces = split_sopt_res(t, e1.specs)->Ok_0;
        assert(split_sopt_res(t, e1.specs) is Ok);
        let newargs = e1.args.take(cur) + pieces + e1.args.skip(cur + 1);
        assert(newargs.skip(cur) =~= pieces + e1.args.skip(cur + 1));
        lemma_weight_concat(pieces, e1.args.skip(cur + 1));
        let body = t.skip(1);
        let stop = cluster_stop(body, e1.specs, 0)->Ok_0;
        assert(1 <= stop <= body.len()) by {
            let j0 = find_sopt(e1.specs, body[0]);
            assert(j0 != e1.specs.len());
            if e1.specs[j0].req_args() {
                assert(cluster_stop(body, e1.specs, 0) == Result::<int, char>::Ok(1));
            } else {
                assert(cluster_stop(body, e1.specs, 0) == cluster_stop(body, e1.specs, 1));
                prsrutil::lemma_cluster_stop_bounds(body, e1.specs, 1);
            }
        }
        if stop > 1 || stop != body.len() {
            let flags = Seq::new(stop as nat, |k: int| seq!['-', body[k]]);
            assert(forall|k: int| 0 <= k < flags.len() ==> (#[trigger] flags[k]).len() == 2);
            lemma_weight_two_char(flags);
            if stop != body.len() {
                assert(pieces =~= flags + seq![body.skip(stop)]);
                lemma_weight_concat(flags, seq![body.skip(stop)]);
                lemma_weight_single(body.skip(stop));
                assert(weight(pieces) <= tok_weight(t));
            } else {
                assert(pieces == flags);
                assert(weight(pieces) <= tok_weight(t));
            }
            assert(pieces[0] == flags[0]);
        } else {
            assert(pieces =~= seq![t]);
            lemma_weight_single(t);
            assert(weight(pieces) == tok_weight(t));
            assert(pieces[0] == t);
        }
        assert(pieces.len() >= 1);
        assert(pieces[0].len() >= 2);
        assert(newargs[cur] == pieces[0]);
        lemma_weight_unfold(e1.args, cur);
        assert(weight(newargs.skip(cur)) <= weight(e1.args.skip(cur)));
        let e2s = EngineV { args: newargs, ..e1 };
        let c = newargs[cur][1];
        let j = find_sopt(e1.specs, c);
        assert(step_plan(e) == opt_dispatch(e2s, j));
        assert(copyout_res(e2s, j) is Ok);
        assert(j != e1.specs.len());
        lemma_find_sopt_from(e1.specs, c, 0);
        let d = e2s.specs[j];
        assert(d.sopt is Some);
        assert(d.is_opt());
        lemma_weight_unfold(newargs, cur);
        assert(tok_weight(newargs[cur]) >= 1);
        if d.is_capture_rest() {
            assert(e2 == (EngineV { curarg: newargs.len() as int, ..e2s }));
            assert(weight(newargs.skip(newargs.len() as int)) == 0) by {
                assert(newargs.skip(newargs.len() as int) =~= Seq::<Seq<char>>::empty());
            }
        } else {
            let n = d.nargs_count();
            assert(newargs.len() - cur - 1 >= n);
            assert(e2 == (EngineV { curarg: cur + 1 + n, ..e2s }));
            lemma_weight_suffix(newargs, cur + 1, cur + 1 + n);
        }
        assert(weight(e2.args.skip(e2.curarg)) < weight(e.args.skip(e.curarg)));
    } else {
        // Positional dispatch: the token list is untouched; the cursor
        // moves forward (or, for a zero-arity positional, only the
        // positional index does).
        assert(step_plan(e) == pos_step(e1));
        assert(e1.posarg < e1.posargs.len());
        let j = e1.posargs[e1.posarg];
        assert(step_plan(e) == pos_dispatch(e1, j));
        assert(copyout_res(e1, j) is Ok);
        let d = e1.specs[j];
        assert(e1.posargs == e.posargs && e1.specs == e.specs && e1.posarg == e.posarg);
        assert(0 <= e.posargs[e.posarg] < e.specs.len());
        assert(d.is_pos());
        assert(!d.is_opt());
        if d.is_capture_rest() {
            assert(e2 == (EngineV {
                curarg: e1.args.len() as int,
                posarg: e1.posarg + 1,
                ..e1
            }));
            assert(weight(e1.args.skip(e1.args.len() as int)) == 0) by {
                assert(e1.args.skip(e1.args.len() as int) =~= Seq::<Seq<char>>::empty());
            }
            assert(e2.args.len() - e2.curarg == 0);
            assert(e.args.len() - e.curarg >= 1);
        } else {
            let n = d.nargs_count();
            assert(e1.args.len() - cur >= n);
            assert(e2 == (EngineV { curarg: cur + n, posarg: e1.posarg + 1, ..e1 }));
            lemma_weight_suffix(e1.args, cur, cur + n);
            if sep_taken {
                assert(weight(e2.args.skip(e2.curarg)) < weight(e.args.skip(e.curarg)));
            } else {
                if n == 0 {
                    assert(e2.curarg == e.curarg && e2.args == e.args);
                    assert(e2.posarg == e.posarg + 1);
                } else {
                    assert(weight(e2.args.skip(e2.curarg)) <= weight(e.args.skip(e.curarg)));
                    assert(e2.args.len() - e2.curarg < e.args.len() - e.curarg);
                }
            }
        }
    }
}

/// Which error, if any, registering a specification with data `d` gives:
/// a collision on a short character, long name or positional name already
/// taken (in that order of checking); a collision when `d` would be a
/// second remainder-capturing positional (only one remainder sink is
/// permitted, so that role is taken; the reported name is the new
/// specification's own name); or the structural error of adding any
/// other positional argument when a remainder-capturing positional is
/// already registered and would no longer stay last.
pub open spec fn add_err(specs: Seq<SpecDataV>, posargs: Seq<int>, d: SpecDataV) -> Option<
    ErrKindV,
> {
    if d.sopt is Some && find_sopt(specs, d.sopt->0) != specs.len() {
        Some(ErrKindV::Collision { name: seq![d.sopt->0] })
    } else if d.lopt is Some && find_lopt(specs, d.lopt->0) != specs.len() {
        Some(ErrKindV::Collision { name: d.lopt->0 })
    } else if d.name is Some && find_name(specs, d.name->0) != specs.len() {
        Some(ErrKindV::Collision { name: d.name->0 })
    } else if d.is_pos() && posargs.len() > 0 && specs[posargs.last()].is_capture_rest() {
        if d.is_capture_rest() {
            Some(ErrKindV::Collision {
                name: match d.name {
                    Some(nm) => nm,
                    None => Seq::empty(),
                },
            })
        } else {
            Some(ErrKindV::BadContext)
        }
    } else {
        None
    }
}

/// Any token that does not start with the option prefix (and so is not
/// the separator literal either) is classified as a positional argument:
/// the step resolves it against the next unmatched positional
/// specification, whatever else is registered.
pub proof fn lemma_positional_classification(e: EngineV)
    requires
        0 <= e.curarg < e.args.len(),
        e.args[e.curarg].len() == 0 || e.args[e.curarg][0] != '-',
        e.args[e.curarg] != sep_chars(),
    ensures
        step_plan(e) == pos_step(e),
{
    let t = e.args[e.curarg];
    assert(!lopt_shape(t));
    assert(!sopt_shape(t));
}

/// Registering a specification with a short option character that an
/// already-registered specification carries fails with a collision
/// naming that character.
pub proof fn lemma_collision_short(specs: Seq<SpecDataV>, posargs: Seq<int>, i: int, d: SpecDataV)
    requires
        0 <= i < specs.len(),
        specs[i].sopt is Some,
        d.sopt == specs[i].sopt,
    ensures
        add_err(specs, posargs, d) == Some(ErrKindV::Collision { name: seq![d.sopt->0] }),
{
    lemma_find_sopt_from(specs, d.sopt->0, 0);
}

/// Registering a specification with a long option name that an
/// already-registered specification carries fails with a collision.
pub proof fn lemma_collision_long(specs: Seq<SpecDataV>, posargs: Seq<int>, i: int, d: SpecDataV)
    requires
        0 <= i < specs.len(),
        specs[i].lopt is Some,
        d.lopt == specs[i].lopt,
    ensures
        add_err(specs, posargs, d) matches Some(e) && e is Collision,
{
    lemma_find_lopt_from(specs, d.lopt->0, 0);
}

/// Registering a specification with a positional name that an
/// already-registered specification carries fails with a collision.
pub proof fn lemma_collision_name(specs: Seq<SpecDataV>, posargs: Seq<int>, i: int, d: SpecDataV)
    requires
        0 <= i < specs.len(),
        specs[i].name is Some,
        d.name == specs[i].name,
    ensures
        add_err(specs, posargs, d) matches Some(e) && e is Collision,
{
    lemma_find_name_from(specs, d.name->0, 0);
}

/// Registering a second remainder-capturing positional fails with a
/// collision: only one remainder sink is permitted.
pub proof fn lemma_collision_second_remainder(
    specs: Seq<SpecDataV>,
    posargs: Seq<int>,
    d: SpecDataV,
)
    requires
        posargs.len() > 0,
        0 <= posargs.last() < specs.len(),
        specs[posargs.last()].is_capture_rest(),
        d.is_pos(),
        d.is_capture_rest(),
    ensures
        add_err(specs, posargs, d) matches Some(e) && e is Collision,
{
}

/// The core parser: the registered specifications, the token cursor, and
/// the caller's context object that handlers accumulate results into.
pub struct Parser<C, H> {
    /// The caller's context; always present (held in an `Option` only so
    /// it can be passed to handlers by value).
    ctx: Option<C>,
    /// All registered specifications, in registration order.  A
    /// specification's index here is its stable identity.
    specs: Vec<Spec<H>>,
    /// Indices into `specs` of the positional specifications, in
    /// registration order.
    posargs: Vec<usize>,
    /// The program name.
    argv0: String,
    /// The token list; compound tokens are split in place during parsing.
    args: Vec<String>,
    /// Index of the current token.
    curarg: usize,
    /// Set once the separator token has been seen.
    posplit: bool,
    /// How many positional specifications have been matched.
    posarg: usize,
    /// The error the last failed [`Parser::parse`] call reported.
    err: Option<ErrKind>,
    /// Free-text paragraphs printed above the option help.
    tophelp: Vec<String>,
    /// Free-text paragraphs printed below the argument help.
    bottomhelp: Vec<String>,
}

impl<C, H: Fn(&SpecData, C, Vec<String>) -> C> Parser<C, H> {
    /// The registered specifications, handlers included.
    pub closed spec fn spec_seq(&self) -> Seq<Spec<H>> {
        self.specs@
    }

    /// The deterministic parser state.
    pub closed spec fn engine(&self) -> EngineV {
        EngineV {
            specs: datas_of(self.specs@),
            posargs: self.posargs@.map_values(|u: usize| u as int),
            args: self.args.deep_view(),
            curarg: self.curarg as int,
            posplit: self.posplit,
            posarg: self.posarg as int,
        }
    }

    /// The caller's context object.
    pub closed spec fn ctx_v(&self) -> C {
        self.ctx->0
    }

    /// The program name.
    pub closed spec fn argv0_v(&self) -> Seq<char> {
        self.argv0@
    }

    /// The paragraphs printed above the option help.
    pub closed spec fn tophelp_v(&self) -> Seq<Seq<char>> {
        self.tophelp.deep_view()
    }

    /// The paragraphs printed below the argument help.
    pub closed spec fn bottomhelp_v(&self) -> Seq<Seq<char>> {
        self.bottomhelp.deep_view()
    }

    /// The recorded error of the last failed parse, if any.
    pub closed spec fn err_v(&self) -> Option<ErrKindV> {
        match self.err {
            Some(e) => Some(e@),
            None => None,
        }
    }

    /// The parser's invariant: the context is present, the cursor and the
    /// positional index are in bounds, the positional order holds valid
    /// indices of positional specifications, only the last positional may
    /// capture the remainder, no short character, long name or positional
    /// name is carried by two specifications, and every handler can be
    /// invoked on any arguments.
    pub closed spec fn wf(&self) -> bool {
        let e = self.engine();
        &&& self.ctx is Some
        &&& e.curarg <= e.args.len()
        &&& e.posarg <= e.posargs.len()
        &&& forall|k: int|
            0 <= k < e.posargs.len() ==> 0 <= #[trigger] e.posargs[k] < e.specs.len()
                && e.specs[e.posargs[k]].is_pos()
        &&& forall|k: int|
            0 <= k < e.posargs.len() - 1 ==> !(#[trigger] e.specs[e.posargs[k]].is_capture_rest())
        &&& forall|i: int, j: int|
            0 <= i < j < e.specs.len() ==> ((e.specs[i].sopt is Some ==> #[trigger] e.specs[i].sopt
                != #[trigger] e.specs[j].sopt) && (e.specs[i].lopt is Some ==> e.specs[i].lopt
                != e.specs[j].lopt) && (e.specs[i].name is Some ==> e.specs[i].name
                != e.specs[j].name))
        &&& forall|i: int|
            0 <= i < self.specs@.len() ==> handler_total(#[trigger] self.specs@[i].proc)
    }

    /// Create a parser over the given program name and token list, taking
    /// ownership of the context object.
    pub fn from_args(argv0: &str, args: Vec<String>, ctx: C) -> (p: Self)
        ensures
            p.wf(),
            p.spec_seq() == Seq::<Spec<H>>::empty(),
            p.engine() == (EngineV {
                specs: Seq::empty(),
                posargs: Seq::empty(),
                args: args.deep_view(),
                curarg: 0,
                posplit: false,
                posarg: 0,
            }),
            p.ctx_v() == ctx,
            p.argv0_v() == argv0@,
            p.tophelp_v() == Seq::<Seq<char>>::empty(),
            p.bottomhelp_v() == Seq::<Seq<char>>::empty(),
            p.err_v() is None,
    {
        let p = Parser {
            ctx: Some(ctx),
            specs: Vec::new(),
            posargs: Vec::new(),
            argv0: String::from_str(argv0),
            args,
            curarg: 0,
            posplit: false,
            posarg: 0,
            err: None,
            tophelp: Vec::new(),
            bottomhelp: Vec::new(),
        };
        proof {
            assert(datas_of(p.specs@) =~= Seq::<SpecDataV>::empty());
            assert(p.posargs@.map_values(|u: usize| u as int) =~= Seq::<int>::empty());
            assert(p.tophelp.deep_view() =~= Seq::<Seq<char>>::empty());
            assert(p.bottomhelp.deep_view() =~= Seq::<Seq<char>>::empty());
        }
        p
    }
}

/// The short-option search finds the first carrier of `c` among the
/// specifications from `i` on, and finds nothing only when there is none.
pub proof fn lemma_find_sopt_from(specs: Seq<SpecDataV>, c: char, i: int)
    requires
        0 <= i <= specs.len(),
    ensures
        i <= find_sopt_from(specs, c, i) <= specs.len(),
        find_sopt_from(specs, c, i) < specs.len() ==> specs[find_sopt_from(specs, c, i)].sopt
            == Some(c),
        forall|j: int| i <= j < find_sopt_from(specs, c, i) ==> #[trigger] specs[j].sopt != Some(c),
        find_sopt_from(specs, c, i) == specs.len() ==> forall|j: int|
            i <= j < specs.len() ==> #[trigger] specs[j].sopt != Some(c),
    decreases specs.len() - i,
{
    if i < specs.len() && specs[i].sopt != Some(c) {
        lemma_find_sopt_from(specs, c, i + 1);
    }
}

/// The long-option search finds the first carrier of `name` among the
/// specifications from `i` on, and finds nothing only when there is none.
pub proof fn lemma_find_lopt_from(specs: Seq<SpecDataV>, name: Seq<char>, i: int)
    requires
        0 <= i <= specs.len(),
    ensures
        i <= find_lopt_from(specs, name, i) <= specs.len(),
        find_lopt_from(specs, name, i) < specs.len() ==> specs[find_lopt_from(specs, name, i)].lopt
            == Some(name),
        forall|j: int|
            i <= j < find_lopt_from(specs, name, i) ==> #[trigger] specs[j].lopt != Some(name),
        find_lopt_from(specs, name, i) == specs.len() ==> forall|j: int|
            i <= j < specs.len() ==> #[trigger] specs[j].lopt != Some(name),
    decreases specs.len() - i,
{
    if i < specs.len() && specs[i].lopt != Some(name) {
        lemma_find_lopt_from(specs, name, i + 1);
    }
}

/// The positional-name search finds the first carrier of `name` among
/// the specifications from `i` on, and finds nothing only when there is
/// none.
pub proof fn lemma_find_name_from(specs: Seq<SpecDataV>, name: Seq<char>, i: int)
    requires
        0 <= i <= specs.len(),
    ensures
        i <= find_name_from(specs, name, i) <= specs.len(),
        find_name_from(specs, name, i) < specs.len() ==> specs[find_name_from(specs, name, i)].name
            == Some(name),
        forall|j: int|
            i <= j < find_name_from(specs, name, i) ==> #[trigger] specs[j].name != Some(name),
        find_name_from(specs, name, i) == specs.len() ==> forall|j: int|
            i <= j < specs.len() ==> #[trigger] specs[j].name != Some(name),
    decreases specs.len() - i,
{
    if i < specs.len() && specs[i].name != Some(name) {
        lemma_find_name_from(specs, name, i + 1);
    }
}

/// Looks up the first specification carrying long option `name`; the
/// length of the list means "none".
fn find_lopt_exec<H>(specs: &Vec<Spec<H>>, name: &String) -> (r: usize)
    ensures
        r == find_lopt(datas_of(specs@), name@),
        r <= specs.len(),
{
    let ghost ds = datas_of(specs@);
    let mut i: usize = 0;
    while i < specs.len()
        invariant
            i <= specs.len(),
            ds == datas_of(specs@),
            ds.len() == specs.len(),
            find_lopt(ds, name@) == find_lopt_from(ds, name@, i as int),
        decreases specs.len() - i,
    {
        let hit = match &specs[i].data.lopt {
            Some(l) => *l == *name,
            None => false,
        };
        if hit {
            return i;
        }
        proof {
            assert(find_lopt_from(ds, name@, i as int) == find_lopt_from(ds, name@, i + 1));
        }
        i = i + 1;
    }
    specs.len()
}

/// Looks up the first specification carrying positional name `name`; the
/// length of the list means "none".
fn find_name_exec<H>(specs: &Vec<Spec<H>>, name: &String) -> (r: usize)
    ensures
        r == find_name(datas_of(specs@), name@),
        r <= specs.len(),
{
    let ghost ds = datas_of(specs@);
    let mut i: usize = 0;
    while i < specs.len()
        invariant
            i <= specs.len(),
            ds == datas_of(specs@),
            ds.len() == specs.len(),
            find_name(ds, name@) == find_name_from(ds, name@, i as int),
        decreases specs.len() - i,
    {
        let hit = match &specs[i].data.name {
            Some(n) => *n == *name,
            None => false,
        };
        if hit {
            return i;
        }
        proof {
            assert(find_name_from(ds, name@, i as int) == find_name_from(ds, name@, i + 1));
        }
        i = i + 1;
    }
    specs.len()
}

impl<C, H: Fn(&SpecData, C, Vec<String>) -> C> Parser<C, H> {
    /// Register a specification.  Fails with a collision error when its
    /// short character, long name or positional name is already taken,
    /// or when it is a second remainder-capturing positional (only one
    /// remainder sink is permitted); fails with a structural error when
    /// it is any other positional argument and a remainder-capturing
    /// positional is already registered, which must stay last.  On
    /// success the specification is appended to the registry; on failure
    /// nothing changes.
    pub fn add(&mut self, spec: Spec<H>) -> (r: Result<(), ErrKind>)
        requires
            old(self).wf(),
            handler_total(spec.proc),
        ensures
            final(self).wf(),
            final(self).ctx_v() == old(self).ctx_v(),
            final(self).argv0_v() == old(self).argv0_v(),
            final(self).tophelp_v() == old(self).tophelp_v(),
            final(self).bottomhelp_v() == old(self).bottomhelp_v(),
            final(self).err_v() == old(self).err_v(),
            match add_err(old(self).engine().specs, old(self).engine().posargs, spec.data@) {
                Some(err) => r matches Err(e) && e@ == err && final(self).spec_seq() == old(
                    self,
                ).spec_seq() && final(self).engine() == old(self).engine(),
                None => r is Ok && final(self).spec_seq() == old(self).spec_seq().push(spec)
                    && final(self).engine() == (EngineV {
                    specs: old(self).engine().specs.push(spec.data@),
                    posargs: if spec.data@.is_pos() {
                        old(self).engine().posargs.push(old(self).engine().specs.len() as int)
                    } else {
                        old(self).engine().posargs
                    },
                    ..old(self).engine()
                }),
            },
    {
        let ghost e0 = old(self).engine();
        let ghost d = spec.data@;
        proof {
            lemma_find_sopt_from(e0.specs, d.sopt->0, 0);
            lemma_find_lopt_from(e0.specs, d.lopt->0, 0);
            lemma_find_name_from(e0.specs, d.name->0, 0);
        }
        match spec.data.sopt {
            Some(c) => {
                if prsrutil::find_sopt_exec(&self.specs, c) != self.specs.len() {
                    let mut name = String::new();
                    crate::spec::push_char(&mut name, c);
                    proof {
                        assert(name@ =~= seq![c]);
                    }
                    return Result::Err(ErrKind::Collision(name));
                }
            },
            None => {},
        }
        match &spec.data.lopt {
            Some(o) => {
                if find_lopt_exec(&self.specs, o) != self.specs.len() {
                    return Result::Err(ErrKind::Collision(o.clone()));
                }
            },
            None => {},
        }
        match &spec.data.name {
            Some(n) => {
                if find_name_exec(&self.specs, n) != self.specs.len() {
                    return Result::Err(ErrKind::Collision(n.clone()));
                }
            },
            None => {},
        }
        let is_pos = spec.data.is_pos();
        if is_pos && self.have_capture_rest() {
            if spec.data.is_capture_rest() {
                let nm = match &spec.data.name {
                    Some(n) => n.clone(),
                    None => String::new(),
                };
                return Result::Err(ErrKind::Collision(nm));
            }
            return Result::Err(
                ErrKind::BadContext(
                    String::from_str(
                        "Can't add positional argument after existing 'capture all' argument",
                    ),
                ),
            );
        }
        let ghost id = self.specs@.len();
        self.specs.push(spec);
        if is_pos {
            let idx = self.specs.len() - 1;
            self.posargs.push(idx);
        }
        proof {
            assert(datas_of(self.specs@) =~= e0.specs.push(d));
            if d.is_pos() {
                assert(self.posargs@.map_values(|u: usize| u as int) =~= e0.posargs.push(
                    id as int,
                ));
            } else {
                assert(self.posargs@.map_values(|u: usize| u as int) =~= e0.posargs);
            }
            let e2 = self.engine();
            assert forall|k: int|
                0 <= k < e2.posargs.len() implies 0 <= #[trigger] e2.posargs[k] < e2.specs.len()
                && e2.specs[e2.posargs[k]].is_pos() by {
                if k < e0.posargs.len() {
                    assert(e0.posargs[k] < e0.specs.len());
                    assert(e2.specs[e2.posargs[k]] == e0.specs[e0.posargs[k]]);
                }
            }
            assert forall|k: int|
                0 <= k < e2.posargs.len() - 1 implies !(
            #[trigger] e2.specs[e2.posargs[k]].is_capture_rest()) by {
                if k < e0.posargs.len() - 1 {
                    assert(e2.specs[e2.posargs[k]] == e0.specs[e0.posargs[k]]);
                } else {
                    // k is the old last positional; the new positional was
                    // only accepted because the old last does not capture
                    // the remainder.
                    assert(e2.specs[e2.posargs[k]] == e0.specs[e0.posargs[e0.posargs.len() - 1]]);
                }
            }
        }
        Result::Ok(())
    }

    /// Whether the last registered positional specification captures the
    /// remainder of the input.
    pub fn have_capture_rest(&self) -> (r: bool)
        requires
            self.wf(),
        ensures
            r == (self.engine().posargs.len() > 0 && self.engine().specs[self.engine().posargs.last()].is_capture_rest()),
    {
        if self.posargs.len() > 0 {
            let j = self.posargs[self.posargs.len() - 1];
            proof {
                let e = self.engine();
                assert(e.posargs[e.posargs.len() - 1] == self.posargs@[self.posargs@.len() - 1] as int);
            }
            self.specs[j].data.is_capture_rest()
        } else {
            false
        }
    }
}

/// How one call of [`Parser::next`] relates the parser after (`b`) to the
/// parser before (`a`) and to its result: the registry, program name,
/// help texts and recorded error are untouched, and the cursor, token
/// list and context change as [`step_plan`] of the old state says.  On a
/// dispatch the new context is a possible result of the matched
/// specification's handler applied to the old context and the payload.
pub open spec fn next_rel<C, H: Fn(&SpecData, C, Vec<String>) -> C>(
    a: Parser<C, H>,
    b: Parser<C, H>,
    r: Result<Option<usize>, ErrKind>,
) -> bool {
    &&& b.spec_seq() == a.spec_seq()
    &&& b.argv0_v() == a.argv0_v()
    &&& b.tophelp_v() == a.tophelp_v()
    &&& b.bottomhelp_v() == a.bottomhelp_v()
    &&& b.err_v() == a.err_v()
    &&& match step_plan(a.engine()) {
        StepPlan::Exhausted { e2 } => r matches Ok(o) && o is None && b.engine() == e2
            && b.ctx_v() == a.ctx_v(),
        StepPlan::Fail { e2, err } => r matches Err(e) && e@ == err && b.engine() == e2
            && b.ctx_v() == a.ctx_v(),
        StepPlan::Dispatch { e2, spec, payload } => r matches Ok(o) && o matches Some(id) && id
            == spec && 0 <= spec < a.spec_seq().len() && b.engine() == e2 && (exists|p: Vec<String>|
            p.deep_view() == payload && call_ensures(
                a.spec_seq()[spec].proc,
                (&a.spec_seq()[spec].data, a.ctx_v(), p),
                b.ctx_v(),
            )),
    }
}

/// The registry invariant, as every well-formed parser maintains it: the
/// positional matching order holds valid identities of positional
/// specifications; at most the last of them may capture the remainder;
/// and no short character, long name or positional name is carried by
/// two registered specifications.
pub proof fn lemma_registry_invariant<C, H: Fn(&SpecData, C, Vec<String>) -> C>(p: Parser<C, H>)
    requires
        p.wf(),
    ensures
        forall|k: int|
            0 <= k < p.engine().posargs.len() ==> 0 <= #[trigger] p.engine().posargs[k]
                < p.engine().specs.len() && p.engine().specs[p.engine().posargs[k]].is_pos(),
        forall|k: int|
            0 <= k < p.engine().posargs.len() - 1 ==> !(
            #[trigger] p.engine().specs[p.engine().posargs[k]].is_capture_rest()),
        forall|i: int, j: int|
            0 <= i < j < p.engine().specs.len() ==> ((p.engine().specs[i].sopt is Some
                ==> #[trigger] p.engine().specs[i].sopt != #[trigger] p.engine().specs[j].sopt) && (
            p.engine().specs[i].lopt is Some ==> p.engine().specs[i].lopt
                != p.engine().specs[j].lopt) && (p.engine().specs[i].name is Some
                ==> p.engine().specs[i].name != p.engine().specs[j].name)),
{
}

/// One non-terminating iteration of the run loop: a step that dispatched
/// a specification without the exit flag.
pub open spec fn dispatch_step<C, H: Fn(&SpecData, C, Vec<String>) -> C>(
    a: Parser<C, H>,
    b: Parser<C, H>,
) -> bool {
    exists|id: usize|
        #[trigger] next_rel(a, b, Result::Ok(Some(id))) && id < a.spec_seq().len()
            && !a.spec_seq()[id as int].data@.exit
}

/// Whether two parsers agree on everything but the recorded error: the
/// state a failing [`Parser::parse`] leaves behind is the state of its
/// failing step, with only the error recorded on top.
pub open spec fn eq_but_err<C, H: Fn(&SpecData, C, Vec<String>) -> C>(
    a: Parser<C, H>,
    b: Parser<C, H>,
) -> bool {
    &&& b.spec_seq() == a.spec_seq()
    &&& b.engine() == a.engine()
    &&& b.ctx_v() == a.ctx_v()
    &&& b.argv0_v() == a.argv0_v()
    &&& b.tophelp_v() == a.tophelp_v()
    &&& b.bottomhelp_v() == a.bottomhelp_v()
}

/// A chain of parser states from `a` to `b` in which each consecutive
/// pair is one non-exit dispatch.
pub open spec fn run_chain<C, H: Fn(&SpecData, C, Vec<String>) -> C>(
    chain: Seq<Parser<C, H>>,
    a: Parser<C, H>,
    b: Parser<C, H>,
) -> bool {
    &&& chain.len() >= 1
    &&& chain[0] == a
    &&& chain.last() == b
    &&& forall|k: int| 0 <= k < chain.len() - 1 ==> dispatch_step(#[trigger] chain[k], chain[k + 1])
}

impl<C, H: Fn(&SpecData, C, Vec<String>) -> C> Parser<C, H> {
    /// Copy the tokens that specification `id` consumes at the current
    /// cursor into `args` and advance the cursor past them, as
    /// [`copyout_res`] says; fail without consuming anything when too few
    /// tokens remain.
    fn copyout_args(&mut self, id: usize, args: &mut Vec<String>) -> (r: Result<(), ErrKind>)
        requires
            old(self).wf(),
            id < old(self).engine().specs.len(),
            old(self).engine().curarg < old(self).engine().args.len(),
        ensures
            final(self).wf(),
            final(self).spec_seq() == old(self).spec_seq(),
            final(self).ctx_v() == old(self).ctx_v(),
            final(self).argv0_v() == old(self).argv0_v(),
            final(self).tophelp_v() == old(self).tophelp_v(),
            final(self).bottomhelp_v() == old(self).bottomhelp_v(),
            final(self).err_v() == old(self).err_v(),
            match copyout_res(old(self).engine(), id as int) {
                Result::Err(err) => r matches Err(e) && e@ == err && *final(self) == *old(self)
                    && *final(args) == *old(args),
                Result::Ok((payload, cur2)) => r is Ok && final(self).engine() == (EngineV {
                    curarg: cur2,
                    ..old(self).engine()
                }) && final(args).deep_view() == old(args).deep_view() + payload,
            },
    {
        let ghost e0 = old(self).engine();
        let ghost d = e0.specs[id as int];
        proof {
            assert(d == self.specs@[id as int].data@);
        }
        if self.specs[id].data.is_capture_rest() {
            let ghost n0 = args@.len() as int;
            while self.curarg < self.args.len()
                invariant
                    old(self).engine().curarg <= self.curarg as int <= self.args.len(),
                    self.specs == old(self).specs,
                    self.args == old(self).args,
                    self.posargs == old(self).posargs,
                    self.ctx == old(self).ctx,
                    self.argv0 == old(self).argv0,
                    self.err == old(self).err,
                    self.tophelp == old(self).tophelp,
                    self.bottomhelp == old(self).bottomhelp,
                    self.posplit == old(self).posplit,
                    self.posarg == old(self).posarg,
                    args.deep_view() == old(args).deep_view() + self.args.deep_view().subrange(
                        old(self).engine().curarg,
                        self.curarg as int,
                    ),
                decreases self.args.len() - self.curarg,
            {
                let t = self.args[self.curarg].clone();
                let ghost args_pre = *args;
                let ghost tc = t@;
                args.push(t);
                proof {
                    let dv = self.args.deep_view();
                    prsrutil::lemma_deep_view_push(args_pre, *args, args@.last());
                    assert(tc == dv[self.curarg as int]);
                    assert(args.deep_view() =~= old(args).deep_view() + dv.subrange(
                        old(self).engine().curarg,
                        self.curarg + 1,
                    ));
                }
                self.curarg = self.curarg + 1;
            }
            proof {
                assert(self.args.deep_view().subrange(
                    old(self).engine().curarg,
                    self.args.deep_view().len() as int,
                ) =~= self.args.deep_view().skip(old(self).engine().curarg));
            }
            return Result::Ok(());
        }
        let offset = self.specs[id].data.is_opt();
        if !prsrutil::check_req_arg_count(&self.args, self.curarg, &self.specs[id].data, offset) {
            return Result::Err(
                ErrKind::MissArg(
                    SpecErr { spec: id, msg: String::from_str("Missing expected argument.") },
                ),
            );
        }
        let n = self.specs[id].data.get_nargs();
        let start = if offset {
            self.curarg + 1
        } else {
            self.curarg
        };
        let mut k: usize = 0;
        while k < n
            invariant
                k <= n,
                start + n <= self.args.len(),
                self.specs == old(self).specs,
                self.args == old(self).args,
                self.posargs == old(self).posargs,
                self.ctx == old(self).ctx,
                self.argv0 == old(self).argv0,
                self.err == old(self).err,
                self.tophelp == old(self).tophelp,
                self.bottomhelp == old(self).bottomhelp,
                self.posplit == old(self).posplit,
                self.posarg == old(self).posarg,
                self.curarg == old(self).curarg,
                args.deep_view() == old(args).deep_view() + self.args.deep_view().subrange(
                    start as int,
                    start + k,
                ),
            decreases n - k,
        {
            let t = self.args[start + k].clone();
            let ghost args_pre = *args;
            let ghost tc = t@;
            args.push(t);
            proof {
                let dv = self.args.deep_view();
                prsrutil::lemma_deep_view_push(args_pre, *args, args@.last());
                assert(tc == dv[start + k]);
                assert(args.deep_view() =~= old(args).deep_view() + dv.subrange(
                    start as int,
                    start + (k + 1),
                ));
            }
            k = k + 1;
        }
        self.curarg = start + n;
        Result::Ok(())
    }

    /// Resolve the long option at the current token: split a `--name=value`
    /// form in place, look the name up, and consume the option's trailing
    /// tokens.  An unknown name is an error (the split stays in place); too
    /// few trailing tokens is an error that consumes nothing further.
    fn proc_lopt(&mut self, args: &mut Vec<String>) -> (r: Result<usize, ErrKind>)
        requires
            old(self).wf(),
            old(self).engine().curarg < old(self).engine().args.len(),
            lopt_shape(old(self).engine().args[old(self).engine().curarg]),
        ensures
            final(self).wf(),
            final(self).spec_seq() == old(self).spec_seq(),
            final(self).ctx_v() == old(self).ctx_v(),
            final(self).argv0_v() == old(self).argv0_v(),
            final(self).tophelp_v() == old(self).tophelp_v(),
            final(self).bottomhelp_v() == old(self).bottomhelp_v(),
            final(self).err_v() == old(self).err_v(),
            match long_step(old(self).engine()) {
                StepPlan::Fail { e2, err } => r matches Err(e) && e@ == err && final(self).engine()
                    == e2 && *final(args) == *old(args),
                StepPlan::Dispatch { e2, spec, payload } => r matches Ok(id) && id as int == spec
                    && spec < old(self).spec_seq().len() && final(self).engine() == e2
                    && final(args).deep_view() == old(args).deep_view() + payload,
                StepPlan::Exhausted { .. } => false,
            },
    {
        let ghost e0 = old(self).engine();
        let ghost t = e0.args[e0.curarg];
        prsrutil::split_lopt(&mut self.args, self.curarg);
        let ghost e2 = EngineV {
            args: e0.args.take(e0.curarg) + split_lopt_res(t) + e0.args.skip(e0.curarg + 1),
            ..e0
        };
        proof {
            assert(self.args.deep_view() == e2.args);
            prsrutil::lemma_find_char_from(t, '=', 0);
            assert(t[0] != '=' && t[1] != '=');
            assert(find_char_from(t, '=', 0) == find_char_from(t, '=', 1));
            assert(find_char_from(t, '=', 1) == find_char_from(t, '=', 2));
            prsrutil::lemma_find_char_from(t, '=', 2);
            assert(e2.args[e0.curarg].len() >= 2);
            assert(self.engine() == e2);
        }
        let tok_len = self.args[self.curarg].as_str().unicode_len();
        let name = String::from_str(self.args[self.curarg].as_str().substring_char(2, tok_len));
        proof {
            assert(name@ == e2.args[e0.curarg].skip(2));
        }
        let j = find_lopt_exec(&self.specs, &name);
        if j == self.specs.len() {
            return Result::Err(ErrKind::UnknownOpt(name));
        }
        match self.copyout_args(j, args) {
            Result::Err(e) => Result::Err(e),
            Result::Ok(()) => Result::Ok(j),
        }
    }

    /// Resolve the short option at the current token: split the cluster
    /// in place, look the first flag character up, and consume the
    /// option's trailing tokens.  A character that no specification
    /// carries is an error that leaves the token list unchanged; too few
    /// trailing tokens is an error that consumes nothing further.
    fn proc_sopt(&mut self, args: &mut Vec<String>) -> (r: Result<usize, ErrKind>)
        requires
            old(self).wf(),
            old(self).engine().curarg < old(self).engine().args.len(),
            sopt_shape(old(self).engine().args[old(self).engine().curarg]),
        ensures
            final(self).wf(),
            final(self).spec_seq() == old(self).spec_seq(),
            final(self).ctx_v() == old(self).ctx_v(),
            final(self).argv0_v() == old(self).argv0_v(),
            final(self).tophelp_v() == old(self).tophelp_v(),
            final(self).bottomhelp_v() == old(self).bottomhelp_v(),
            final(self).err_v() == old(self).err_v(),
            match short_step(old(self).engine()) {
                StepPlan::Fail { e2, err } => r matches Err(e) && e@ == err && final(self).engine()
                    == e2 && *final(args) == *old(args),
                StepPlan::Dispatch { e2, spec, payload } => r matches Ok(id) && id as int == spec
                    && spec < old(self).spec_seq().len() && final(self).engine() == e2
                    && final(args).deep_view() == old(args).deep_view() + payload,
                StepPlan::Exhausted { .. } => false,
            },
    {
        let ghost e0 = old(self).engine();
        let ghost t = e0.args[e0.curarg];
        let ghost body = t.skip(1);
        match prsrutil::split_sopts_arg(&mut self.args, self.curarg, &self.specs) {
            Result::Err(e) => {
                return Result::Err(e);
            },
            Result::Ok(()) => {},
        }
        let ghost pieces = split_sopt_res(t, e0.specs)->Ok_0;
        let ghost e2 = EngineV {
            args: e0.args.take(e0.curarg) + pieces + e0.args.skip(e0.curarg + 1),
            ..e0
        };
        proof {
            assert(self.args.deep_view() == e2.args);
            assert(self.engine() == e2);
            // The walk inspected the first cluster character, so a
            // specification for it exists and the rewritten token repeats
            // it after the dash.
            assert(body.len() >= 1);
            assert(cluster_stop(body, e0.specs, 0) is Ok);
            assert(find_sopt(e0.specs, body[0]) != e0.specs.len());
            let stop = cluster_stop(body, e0.specs, 0)->Ok_0;
            assert(1 <= stop <= body.len()) by {
                let j0 = find_sopt(e0.specs, body[0]);
                assert(j0 != e0.specs.len());
                if e0.specs[j0].req_args() {
                    assert(cluster_stop(body, e0.specs, 0) == Result::<int, char>::Ok(1));
                } else {
                    assert(cluster_stop(body, e0.specs, 0) == cluster_stop(body, e0.specs, 1));
                    prsrutil::lemma_cluster_stop_bounds(body, e0.specs, 1);
                }
            }
            if stop > 1 || stop != body.len() {
                let flags = Seq::new(stop as nat, |k: int| seq!['-', body[k]]);
                assert(pieces[0] == flags[0]);
                assert(e2.args[e0.curarg] == seq!['-', body[0]]);
            } else {
                assert(e2.args[e0.curarg] == t);
                assert(t[1] == body[0]);
            }
            assert(e2.args[e0.curarg].len() >= 2);
            assert(e2.args[e0.curarg][1] == body[0]);
        }
        let c = self.args[self.curarg].as_str().get_char(1);
        let j = prsrutil::find_sopt_exec(&self.specs, c);
        if j == self.specs.len() {
            let mut name = String::new();
            crate::spec::push_char(&mut name, c);
            proof {
                assert(name@ =~= seq![c]);
            }
            return Result::Err(ErrKind::UnknownOpt(name));
        }
        match self.copyout_args(j, args) {
            Result::Err(e) => Result::Err(e),
            Result::Ok(()) => Result::Ok(j),
        }
    }

    /// Resolve the current token as a positional argument against the
    /// next unmatched positional specification, consuming that
    /// specification's token count from the current position.  Fails when
    /// no positional specification is left, or when too few tokens
    /// remain.
    fn proc_posarg(&mut self, args: &mut Vec<String>) -> (r: Result<usize, ErrKind>)
        requires
            old(self).wf(),
            old(self).engine().curarg < old(self).engine().args.len(),
        ensures
            final(self).wf(),
            final(self).spec_seq() == old(self).spec_seq(),
            final(self).ctx_v() == old(self).ctx_v(),
            final(self).argv0_v() == old(self).argv0_v(),
            final(self).tophelp_v() == old(self).tophelp_v(),
            final(self).bottomhelp_v() == old(self).bottomhelp_v(),
            final(self).err_v() == old(self).err_v(),
            match pos_step(old(self).engine()) {
                StepPlan::Fail { e2, err } => r matches Err(e) && e@ == err && final(self).engine()
                    == e2 && *final(args) == *old(args),
                StepPlan::Dispatch { e2, spec, payload } => r matches Ok(id) && id as int == spec
                    && spec < old(self).spec_seq().len() && final(self).engine() == e2
                    && final(args).deep_view() == old(args).deep_view() + payload,
                StepPlan::Exhausted { .. } => false,
            },
    {
        if self.posarg == self.posargs.len() {
            return Result::Err(
                ErrKind::MissSpec(String::from_str("Out of positional argument specs")),
            );
        }
        let j = self.posargs[self.posarg];
        match self.copyout_args(j, args) {
            Result::Err(e) => {
                return Result::Err(e);
            },
            Result::Ok(()) => {},
        }
        self.posarg = self.posarg + 1;
        Result::Ok(j)
    }

    /// Advance by one classified unit: report the end of the token
    /// stream, or classify the current token (taking the separator once,
    /// permanently switching to positional-only mode), dispatch its
    /// tokens to the matched specification's handler, and return that
    /// specification's identity.  Unknown options, a missing trailing
    /// token and a positional token with no specification left are
    /// errors.
    pub fn next(&mut self) -> (r: Result<Option<usize>, ErrKind>)
        requires
            old(self).wf(),
        ensures
            final(self).wf(),
            next_rel(*old(self), *final(self), r),
    {
        let ghost e0 = old(self).engine();
        if self.curarg == self.args.len() {
            return Result::Ok(None);
        }
        proof {
            assert(self.args.deep_view()[self.curarg as int] == self.args@[self.curarg as int]@);
        }
        if !self.posplit && prsrutil::is_sep_token(self.args[self.curarg].as_str()) {
            self.posplit = true;
            self.curarg = self.curarg + 1;
            if self.curarg == self.args.len() {
                return Result::Ok(None);
            }
        }
        let ghost e1 = self.engine();
        proof {
            assert(self.args.deep_view()[self.curarg as int] == self.args@[self.curarg as int]@);
        }
        let id: usize;
        let mut payload: Vec<String> = Vec::new();
        if !self.posplit && prsrutil::maybe_lopt(self.args[self.curarg].as_str()) {
            match self.proc_lopt(&mut payload) {
                Result::Ok(j) => {
                    id = j;
                },
                Result::Err(e) => {
                    return Result::Err(e);
                },
            }
        } else if !self.posplit && prsrutil::maybe_sopt(self.args[self.curarg].as_str()) {
            match self.proc_sopt(&mut payload) {
                Result::Ok(j) => {
                    id = j;
                },
                Result::Err(e) => {
                    return Result::Err(e);
                },
            }
        } else {
            match self.proc_posarg(&mut payload) {
                Result::Ok(j) => {
                    id = j;
                },
                Result::Err(e) => {
                    return Result::Err(e);
                },
            }
        }
        let ghost pv = payload;
        proof {
            assert(id < self.specs@.len());
        }
        let c = self.ctx.take().unwrap();
        let s = &self.specs[id];
        proof {
            assert(*s == self.specs@[id as int]);
            assert(handler_total(self.specs@[id as int].proc));
            assert(handler_total(s.proc));
            assert(call_requires(s.proc, (&s.data, c, pv)));
        }
        let c2 = (s.proc)(&s.data, c, payload);
        self.ctx = Some(c2);
        proof {
            assert(pv.deep_view() =~= Seq::<Seq<char>>::empty() + pv.deep_view());
        }
        Result::Ok(Some(id))
    }


    /// Run the parser to completion or to an early exit: repeatedly take
    /// one step; when a step dispatches a specification whose exit flag
    /// is set, stop at once and return its identity (the handler has
    /// run; remaining tokens stay unconsumed); when the tokens are
    /// exhausted, check that every required positional specification was
    /// matched and return nothing.  A failing step or a failing final
    /// check returns its error and records it for [`Parser::did_fail`].
    pub fn parse(&mut self) -> (r: Result<Option<usize>, ErrKind>)
        requires
            old(self).wf(),
        ensures
            final(self).wf(),
            final(self).spec_seq() == old(self).spec_seq(),
            final(self).argv0_v() == old(self).argv0_v(),
            final(self).tophelp_v() == old(self).tophelp_v(),
            final(self).bottomhelp_v() == old(self).bottomhelp_v(),
            r matches Ok(Some(id)) ==> id < final(self).spec_seq().len()
                && final(self).spec_seq()[id as int].data@.exit
                && final(self).err_v() == old(self).err_v()
                && (exists|chain: Seq<Parser<C, H>>, m: Parser<C, H>|
                #[trigger] run_chain(chain, *old(self), m) && next_rel(
                    m,
                    *final(self),
                    Result::Ok(Some(id)),
                )),
            r matches Ok(None) ==> final(self).engine().curarg == final(self).engine().args.len()
                && first_required_from(
                final(self).engine(),
                final(self).engine().posarg,
            ) is None && final(self).err_v() == old(self).err_v()
                && (exists|chain: Seq<Parser<C, H>>, m: Parser<C, H>|
                #[trigger] run_chain(chain, *old(self), m) && next_rel(
                    m,
                    *final(self),
                    Result::Ok(None),
                )),
            r matches Err(e) ==> final(self).err_v() == Some(e@) && (exists|
                chain: Seq<Parser<C, H>>,
                m: Parser<C, H>,
                m2: Parser<C, H>,
            |
                #[trigger] run_chain(chain, *old(self), m) && #[trigger] eq_but_err(
                    m2,
                    *final(self),
                ) && ((exists|e2: ErrKind| next_rel(m, m2, Result::Err(e2)) && e2@ == e@) || (
                next_rel(m, m2, Result::Ok(None)) && first_required_from(
                    m2.engine(),
                    m2.engine().posarg,
                ) == Some(e@->MissArg_spec)))),
    {
        let ghost mut chain: Seq<Parser<C, H>> = seq![*old(self)];
        loop
            invariant
                self.wf(),
                self.spec_seq() == old(self).spec_seq(),
                self.argv0_v() == old(self).argv0_v(),
                self.tophelp_v() == old(self).tophelp_v(),
                self.bottomhelp_v() == old(self).bottomhelp_v(),
                self.err_v() == old(self).err_v(),
                run_chain(chain, *old(self), *self),
            decreases
                weight(self.engine().args.skip(self.engine().curarg)),
                self.engine().args.len() - self.engine().curarg,
                self.engine().posargs.len() - self.engine().posarg,
        {
            let ghost pre = *self;
            match self.next() {
                Result::Ok(Some(id)) => {
                    if self.specs[id].data.is_exit() {
                        proof {
                            assert(run_chain(chain, *old(self), pre));
                            assert(next_rel(pre, *self, Result::Ok(Some(id))));
                        }
                        return Result::Ok(Some(id));
                    }
                    proof {
                        lemma_step_progress(pre.engine());
                        let ghost oldchain = chain;
                        chain = chain.push(*self);
                        assert(next_rel(pre, *self, Result::Ok(Some(id))));
                        assert(!pre.spec_seq()[id as int].data@.exit);
                        assert(dispatch_step(pre, *self));
                        assert forall|k: int| 0 <= k < chain.len() - 1 implies dispatch_step(
                            #[trigger] chain[k],
                            chain[k + 1],
                        ) by {
                            if k < oldchain.len() - 1 {
                                assert(chain[k] == oldchain[k]);
                                assert(chain[k + 1] == oldchain[k + 1]);
                                assert(dispatch_step(oldchain[k], oldchain[k + 1]));
                            } else {
                                assert(chain[k] == pre);
                                assert(chain[k + 1] == *self);
                            }
                        }
                    }
                },
                Result::Ok(None) => {
                    match self.validate() {
                        Result::Ok(()) => {
                            proof {
                                assert(run_chain(chain, *old(self), pre));
                                assert(next_rel(pre, *self, Result::Ok(None)));
                            }
                            return Result::Ok(None);
                        },
                        Result::Err(e) => {
                            let ghost m2 = *self;
                            self.err = Some(e.duplicate());
                            proof {
                                assert(run_chain(chain, *old(self), pre));
                                assert(next_rel(pre, m2, Result::Ok(None)));
                                assert(eq_but_err(m2, *self));
                                assert(first_required_from(m2.engine(), m2.engine().posarg)
                                    == Some(e@->MissArg_spec));
                            }
                            return Result::Err(e);
                        },
                    }
                },
                Result::Err(e) => {
                    let ghost m2 = *self;
                    let ghost efirst = e;
                    self.err = Some(e.duplicate());
                    proof {
                        assert(run_chain(chain, *old(self), pre));
                        assert(next_rel(pre, m2, Result::Err(efirst)));
                        assert(eq_but_err(m2, *self));
                    }
                    return Result::Err(e);
                },
            }
        }
    }

    /// The program name the parser was created with.
    pub fn get_arg0(&self) -> (r: &str)
        ensures
            r@ == self.argv0_v(),
    {
        self.argv0.as_str()
    }

    /// The tokens not yet consumed, copied out in order.
    pub fn get_remaining_args(&mut self) -> (r: Vec<String>)
        requires
            old(self).wf(),
        ensures
            *final(self) == *old(self),
            r.deep_view() == old(self).engine().args.skip(old(self).engine().curarg),
    {
        let mut remain: Vec<String> = Vec::new();
        let mut i: usize = self.curarg;
        while i < self.args.len()
            invariant
                self.curarg <= i <= self.args.len(),
                *self == *old(self),
                remain.deep_view() == self.args.deep_view().subrange(
                    self.curarg as int,
                    i as int,
                ),
            decreases self.args.len() - i,
        {
            let t = self.args[i].clone();
            let ghost rpre = remain;
            remain.push(t);
            proof {
                prsrutil::lemma_deep_view_push(rpre, remain, remain@.last());
                assert(remain.deep_view() =~= self.args.deep_view().subrange(
                    self.curarg as int,
                    i + 1,
                ));
            }
            i = i + 1;
        }
        proof {
            assert(remain.deep_view() =~= self.args.deep_view().skip(self.curarg as int));
        }
        remain
    }

    /// Replace the free-text paragraphs shown above the option help.
    pub fn set_tophelp(&mut self, p: Vec<String>)
        ensures
            old(self).wf() ==> final(self).wf(),
            final(self).spec_seq() == old(self).spec_seq(),
            final(self).engine() == old(self).engine(),
            final(self).ctx_v() == old(self).ctx_v(),
            final(self).argv0_v() == old(self).argv0_v(),
            final(self).err_v() == old(self).err_v(),
            final(self).bottomhelp_v() == old(self).bottomhelp_v(),
            final(self).tophelp_v() == p.deep_view(),
    {
        self.tophelp = p;
    }

    /// Append free-text paragraphs to those shown above the option help.
    pub fn append_tophelp(&mut self, p: Vec<String>)
        ensures
            old(self).wf() ==> final(self).wf(),
            final(self).spec_seq() == old(self).spec_seq(),
            final(self).engine() == old(self).engine(),
            final(self).ctx_v() == old(self).ctx_v(),
            final(self).argv0_v() == old(self).argv0_v(),
            final(self).err_v() == old(self).err_v(),
            final(self).bottomhelp_v() == old(self).bottomhelp_v(),
            final(self).tophelp_v() == old(self).tophelp_v() + p.deep_view(),
    {
        let mut ps = p;
        let ghost pre = self.tophelp.deep_view();
        let ghost addv = ps.deep_view();
        self.tophelp.append(&mut ps);
        proof {
            assert(self.tophelp.deep_view() =~= pre + addv);
        }
    }

    /// Replace the free-text paragraphs shown below the argument help.
    pub fn set_bottomhelp(&mut self, p: Vec<String>)
        ensures
            old(self).wf() ==> final(self).wf(),
            final(self).spec_seq() == old(self).spec_seq(),
            final(self).engine() == old(self).engine(),
            final(self).ctx_v() == old(self).ctx_v(),
            final(self).argv0_v() == old(self).argv0_v(),
            final(self).err_v() == old(self).err_v(),
            final(self).tophelp_v() == old(self).tophelp_v(),
            final(self).bottomhelp_v() == p.deep_view(),
    {
        self.bottomhelp = p;
    }

    /// Append free-text paragraphs to those shown below the argument
    /// help.
    pub fn append_bottomhelp(&mut self, p: Vec<String>)
        ensures
            old(self).wf() ==> final(self).wf(),
            final(self).spec_seq() == old(self).spec_seq(),
            final(self).engine() == old(self).engine(),
            final(self).ctx_v() == old(self).ctx_v(),
            final(self).argv0_v() == old(self).argv0_v(),
            final(self).err_v() == old(self).err_v(),
            final(self).tophelp_v() == old(self).tophelp_v(),
            final(self).bottomhelp_v() == old(self).bottomhelp_v() + p.deep_view(),
    {
        let mut ps = p;
        let ghost pre = self.bottomhelp.deep_view();
        let ghost addv = ps.deep_view();
        self.bottomhelp.append(&mut ps);
        proof {
            assert(self.bottomhelp.deep_view() =~= pre + addv);
        }
    }

    /// The free-text paragraphs shown above the option help.
    pub fn get_tophelp(&self) -> (r: &Vec<String>)
        ensures
            r.deep_view() == self.tophelp_v(),
    {
        &self.tophelp
    }

    /// The free-text paragraphs shown below the argument help.
    pub fn get_bottomhelp(&self) -> (r: &Vec<String>)
        ensures
            r.deep_view() == self.bottomhelp_v(),
    {
        &self.bottomhelp
    }

    /// How many tokens are not yet consumed.
    pub fn num_remaining_args(&self) -> (r: usize)
        requires
            self.wf(),
        ensures
            r == self.engine().args.len() - self.engine().curarg,
    {
        self.args.len() - self.curarg
    }

    /// How many positional specifications are not yet matched.
    pub fn num_remaining_posargspecs(&self) -> (r: usize)
        requires
            self.wf(),
        ensures
            r == self.engine().posargs.len() - self.engine().posarg,
    {
        self.posargs.len() - self.posarg
    }

    /// How many specifications are registered.
    pub fn num_specs(&self) -> (r: usize)
        ensures
            r == self.spec_seq().len(),
    {
        self.specs.len()
    }

    /// The descriptive data of the specification with identity `i`.
    pub fn get_spec_data(&self, i: usize) -> (r: &SpecData)
        requires
            i < self.spec_seq().len(),
        ensures
            *r == self.spec_seq()[i as int].data,
            r@ == self.engine().specs[i as int],
    {
        &self.specs[i].data
    }

    /// The identities of the registered option specifications, in
    /// registration order.
    pub fn get_opts(&self) -> (r: Vec<usize>)
        ensures
            r@.map_values(|u: usize| u as int) == Seq::new(
                self.engine().specs.len(),
                |i: int| i,
            ).filter(|i: int| self.engine().specs[i].is_opt()),
    {
        let ghost e = self.engine();
        let mut out: Vec<usize> = Vec::new();
        let mut i: usize = 0;
        while i < self.specs.len()
            invariant
                i <= self.specs.len(),
                e == self.engine(),
                e.specs.len() == self.specs@.len(),
                out@.map_values(|u: usize| u as int) == Seq::new(i as nat, |k: int| k).filter(
                    |k: int| e.specs[k].is_opt(),
                ),
            decreases self.specs.len() - i,
        {
            proof {
                assert(Seq::new((i + 1) as nat, |k: int| k).drop_last() =~= Seq::new(
                    i as nat,
                    |k: int| k,
                ));
                reveal_with_fuel(Seq::filter, 2);
            }
            if self.specs[i].data.is_opt() {
                let ghost outpre = out@;
                out.push(i);
                proof {
                    assert(out@.map_values(|u: usize| u as int) =~= outpre.map_values(
                        |u: usize| u as int,
                    ).push(i as int));
                    assert(Seq::new((i + 1) as nat, |k: int| k).filter(|k: int| e.specs[k].is_opt())
                        =~= out@.map_values(|u: usize| u as int));
                }
            } else {
                proof {
                    assert(Seq::new((i + 1) as nat, |k: int| k).filter(|k: int| e.specs[k].is_opt())
                        =~= out@.map_values(|u: usize| u as int));
                }
            }
            i = i + 1;
        }
        proof {
            assert(Seq::new(self.specs@.len() as nat, |k: int| k) =~= Seq::new(
                e.specs.len(),
                |i: int| i,
            ));
        }
        out
    }

    /// The identities of the registered positional specifications, in
    /// registration order.
    pub fn get_posargs(&self) -> (r: Vec<usize>)
        ensures
            r@.map_values(|u: usize| u as int) == Seq::new(
                self.engine().specs.len(),
                |i: int| i,
            ).filter(|i: int| self.engine().specs[i].is_pos()),
    {
        let ghost e = self.engine();
        let mut out: Vec<usize> = Vec::new();
        let mut i: usize = 0;
        while i < self.specs.len()
            invariant
                i <= self.specs.len(),
                e == self.engine(),
                e.specs.len() == self.specs@.len(),
                out@.map_values(|u: usize| u as int) == Seq::new(i as nat, |k: int| k).filter(
                    |k: int| e.specs[k].is_pos(),
                ),
            decreases self.specs.len() - i,
        {
            proof {
                assert(Seq::new((i + 1) as nat, |k: int| k).drop_last() =~= Seq::new(
                    i as nat,
                    |k: int| k,
                ));
                reveal_with_fuel(Seq::filter, 2);
            }
            if self.specs[i].data.is_pos() {
                let ghost outpre = out@;
                out.push(i);
                proof {
                    assert(out@.map_values(|u: usize| u as int) =~= outpre.map_values(
                        |u: usize| u as int,
                    ).push(i as int));
                    assert(Seq::new((i + 1) as nat, |k: int| k).filter(|k: int| e.specs[k].is_pos())
                        =~= out@.map_values(|u: usize| u as int));
                }
            } else {
                proof {
                    assert(Seq::new((i + 1) as nat, |k: int| k).filter(|k: int| e.specs[k].is_pos())
                        =~= out@.map_values(|u: usize| u as int));
                }
            }
            i = i + 1;
        }
        proof {
            assert(Seq::new(self.specs@.len() as nat, |k: int| k) =~= Seq::new(
                e.specs.len(),
                |i: int| i,
            ));
        }
        out
    }

    /// Check that every required positional specification has been
    /// matched; fail with a missing-argument error naming the first
    /// unmatched required one.  Positional specifications that are not
    /// required may stay unmatched.
    pub fn validate(&self) -> (r: Result<(), ErrKind>)
        requires
            self.wf(),
        ensures
            match first_required_from(self.engine(), self.engine().posarg) {
                Some(j) => r matches Err(e) && e@ == (ErrKindV::MissArg { spec: j }),
                None => r is Ok,
            },
    {
        let ghost e = self.engine();
        let mut i: usize = self.posarg;
        while i < self.posargs.len()
            invariant
                self.posarg <= i <= self.posargs.len(),
                self.wf(),
                e == self.engine(),
                first_required_from(e, e.posarg) == first_required_from(e, i as int),
            decreases self.posargs.len() - i,
        {
            let j = self.posargs[i];
            if self.specs[j].data.is_req() {
                proof {
                    assert(first_required_from(e, i as int) == Some(j as int));
                }
                return Result::Err(
                    ErrKind::MissArg(
                        SpecErr {
                            spec: j,
                            msg: String::from_str("Missing required positional argument."),
                        },
                    ),
                );
            }
            proof {
                assert(first_required_from(e, i as int) == first_required_from(e, i + 1));
            }
            i = i + 1;
        }
        Result::Ok(())
    }

    /// Whether the last [`Parser::parse`] call recorded an error.
    pub fn did_fail(&self) -> (r: bool)
        ensures
            r == (self.err_v() is Some),
    {
        self.err.is_some()
    }

    /// Borrow the context object.
    pub fn get_ctx(&self) -> (r: &C)
        requires
            self.wf(),
        ensures
            *r == self.ctx_v(),
    {
        match &self.ctx {
            Some(c) => c,
            None => unreached(),
        }
    }

    /// Consume the parser and regain ownership of the context object.
    pub fn into_ctx(self) -> (r: C)
        requires
            self.wf(),
        ensures
            r == self.ctx_v(),
    {
        match self.ctx {
            Some(c) => c,
            None => unreached(),
        }
    }
}

} // verus!
