use vstd::prelude::*;

use crate::err::{ErrKind, ErrKindV};
use crate::spec::{Spec, SpecData, SpecDataV, push_char};

verus! {

/// The characters of the reserved separator token.
pub open spec fn sep_chars() -> Seq<char> {
    seq!['-', '-']
}

/// Whether a token has the shape of a long option: longer than two
/// characters and starting with the two-character long-option prefix.
pub open spec fn lopt_shape(t: Seq<char>) -> bool {
    t.len() > 2 && t[0] == '-' && t[1] == '-'
}

/// Whether a token has the shape of a short option: longer than one
/// character, starting with the short-option prefix, and not itself the
/// bare separator.
pub open spec fn sopt_shape(t: Seq<char>) -> bool {
    t.len() > 1 && t[0] == '-' && t != sep_chars()
}

/// Whether an arguments vector element looks like a long option.
pub fn maybe_lopt(arg: &str) -> (r: bool)
    ensures
        r == lopt_shape(arg@),
{
    let n = arg.unicode_len();
    n > 2 && arg.get_char(0) == '-' && arg.get_char(1) == '-'
}

/// Whether an arguments vector element looks like a short option.
pub fn maybe_sopt(arg: &str) -> (r: bool)
    ensures
        r == sopt_shape(arg@),
{
    let n = arg.unicode_len();
    if n > 1 && arg.get_char(0) == '-' {
        let is_sep = n == 2 && arg.get_char(1) == '-';
        proof {
            if is_sep {
                assert(arg@ =~= sep_chars());
            }
            if arg@ == sep_chars() {
                assert(arg@.len() == 2 && arg@[1] == '-');
            }
        }
        !is_sep
    } else {
        false
    }
}

/// Whether a token is exactly the separator literal.
pub(crate) fn is_sep_token(arg: &str) -> (r: bool)
    ensures
        r == (arg@ == sep_chars()),
{
    let n = arg.unicode_len();
    let r = n == 2 && arg.get_char(0) == '-' && arg.get_char(1) == '-';
    proof {
        if r {
            assert(arg@ =~= sep_chars());
        }
        if arg@ == sep_chars() {
            assert(arg@.len() == 2 && arg@[0] == '-' && arg@[1] == '-');
        }
    }
    r
}

/// The index of the first occurrence of `c` in `t` at or after `i`, or
/// `t.len()` when there is none.
pub open spec fn find_char_from(t: Seq<char>, c: char, i: int) -> int
    decreases t.len() - i,
{
    if i < 0 || i >= t.len() {
        t.len() as int
    } else if t[i] == c {
        i
    } else {
        find_char_from(t, c, i + 1)
    }
}

/// The index of the first occurrence of `c` in `s`, or the length of `s`
/// when `c` does not occur.
fn find_char(s: &str, c: char) -> (r: usize)
    ensures
        r == find_char_from(s@, c, 0),
        r <= s@.len(),
{
    let n = s.unicode_len();
    let mut i: usize = 0;
    while i < n
        invariant
            i <= n,
            n == s@.len(),
            find_char_from(s@, c, 0) == find_char_from(s@, c, i as int),
        decreases n - i,
    {
        if s.get_char(i) == c {
            return i;
        }
        proof {
            assert(find_char_from(s@, c, i as int) == find_char_from(s@, c, i + 1));
        }
        i = i + 1;
    }
    n
}

/// The character search finds the first occurrence, and finds nothing
/// only when the character does not occur.
pub proof fn lemma_find_char_from(t: Seq<char>, c: char, i: int)
    requires
        0 <= i <= t.len(),
    ensures
        i <= find_char_from(t, c, i) <= t.len(),
        find_char_from(t, c, i) < t.len() ==> t[find_char_from(t, c, i)] == c,
        forall|j: int| i <= j < find_char_from(t, c, i) ==> t[j] != c,
    decreases t.len() - i,
{
    if i < t.len() && t[i] != c {
        lemma_find_char_from(t, c, i + 1);
    }
}

/// What the token list holds in place of token `t` after the long-option
/// split: the name and the value as two tokens when `t` holds an internal
/// `=` separator, the token unchanged otherwise (also when the separator
/// is the first or last character, which is left for the resolver to
/// reject).
pub open spec fn split_lopt_res(t: Seq<char>) -> Seq<Seq<char>> {
    let i = find_char_from(t, '=', 0);
    if i == t.len() || i == 0 || i == t.len() - 1 {
        seq![t]
    } else {
        seq![t.subrange(0, i), t.subrange(i + 1, t.len() as int)]
    }
}

/// A token without an internal separator is left alone by the
/// long-option split: the token list comes out unchanged.
pub proof fn lemma_split_lopt_no_eq(t: Seq<char>)
    requires
        forall|j: int| 0 <= j < t.len() ==> t[j] != '=',
    ensures
        split_lopt_res(t) == seq![t],
{
    lemma_find_char_from(t, '=', 0);
    assert(find_char_from(t, '=', 0) == t.len());
}

/// The long-option split is idempotent: its name piece never holds a
/// further separator to split at, so splitting it again changes nothing.
pub proof fn lemma_split_lopt_idempotent(t: Seq<char>)
    ensures
        split_lopt_res(split_lopt_res(t)[0]) == seq![split_lopt_res(t)[0]],
{
    lemma_find_char_from(t, '=', 0);
    let i = find_char_from(t, '=', 0);
    if i == t.len() || i == 0 || i == t.len() - 1 {
        assert(split_lopt_res(t)[0] == t);
    } else {
        let l = t.subrange(0, i);
        assert(split_lopt_res(t)[0] == l);
        assert(forall|j: int| 0 <= j < l.len() ==> l[j] != '=');
        lemma_split_lopt_no_eq(l);
    }
}

/// A single registered flag is a cluster that needs no splitting: the
/// short-option split leaves it alone, whatever the flag's arity.
pub proof fn lemma_split_sopt_single(t: Seq<char>, specs: Seq<SpecDataV>)
    requires
        t.len() == 2,
        find_sopt(specs, t[1]) != specs.len(),
    ensures
        split_sopt_res(t, specs) == Result::<Seq<Seq<char>>, char>::Ok(seq![t]),
{
    let body = t.skip(1);
    assert(body.len() == 1);
    assert(body[0] == t[1]);
    let j = find_sopt(specs, body[0]);
    if specs[j].req_args() {
        assert(cluster_stop(body, specs, 0) == Result::<int, char>::Ok(1));
    } else {
        assert(cluster_stop(body, specs, 0) == cluster_stop(body, specs, 1));
        assert(cluster_stop(body, specs, 1) == Result::<int, char>::Ok(1));
    }
}

/// Splits `argv[i]` of the form `--name=value` in place into `--name`
/// followed by a new `value` token.  A token without an internal `=` is
/// left alone, as is one whose `=` is its first or last character.
pub fn split_lopt(argv: &mut Vec<String>, i: usize)
    requires
        i < old(argv).len(),
    ensures
        final(argv).deep_view() == old(argv).deep_view().take(i as int) + split_lopt_res(
            old(argv).deep_view()[i as int],
        ) + old(argv).deep_view().skip(i + 1),
{
    let ghost pre = old(argv).deep_view();
    let n = argv[i].as_str().unicode_len();
    let idx = find_char(argv[i].as_str(), '=');
    if idx == n || idx == 0 || idx == n - 1 {
        proof {
            assert(split_lopt_res(pre[i as int]) =~= seq![pre[i as int]]);
            assert(argv.deep_view() =~= pre.take(i as int) + seq![pre[i as int]] + pre.skip(i + 1));
        }
    } else {
        let tok = argv[i].clone();
        let l = String::from_str(tok.as_str().substring_char(0, idx));
        let r = String::from_str(tok.as_str().substring_char(idx + 1, n));
        argv[i] = l;
        argv.insert(i + 1, r);
        proof {
            let iv = i as int;
            assert(argv.deep_view() =~= pre.take(iv) + seq![
                pre[iv].subrange(0, idx as int),
                pre[iv].subrange(idx + 1, pre[iv].len() as int),
            ] + pre.skip(iv + 1));
        }
    }
}

/// A vector made by inserting one token has the deep view of the first
/// vector with that token's characters inserted.
proof fn lemma_deep_view_insert(v1: Vec<String>, v2: Vec<String>, p: int, x: String)
    requires
        0 <= p <= v1@.len(),
        v2@ == v1@.insert(p, x),
    ensures
        v2.deep_view() == v1.deep_view().insert(p, x@),
{
    v1@.insert_ensures(p, x);
    v1.deep_view().insert_ensures(p, x@);
    assert(v2.deep_view() =~= v1.deep_view().insert(p, x@));
}

/// A vector made by removing one token has the deep view of the first
/// vector with that position removed.
proof fn lemma_deep_view_remove(v1: Vec<String>, v2: Vec<String>, p: int)
    requires
        0 <= p < v1@.len(),
        v2@ == v1@.remove(p),
    ensures
        v2.deep_view() == v1.deep_view().remove(p),
{
    v1@.remove_ensures(p);
    v1.deep_view().remove_ensures(p);
    assert(v2.deep_view() =~= v1.deep_view().remove(p));
}

/// A vector made by pushing one token has the deep view of the first
/// vector with that token's characters pushed.
pub(crate) proof fn lemma_deep_view_push(v1: Vec<String>, v2: Vec<String>, x: String)
    requires
        v2@ == v1@.push(x),
    ensures
        v2.deep_view() == v1.deep_view().push(x@),
{
    assert(v2.deep_view() =~= v1.deep_view().push(x@));
}

/// The datas of a sequence of specifications.
pub open spec fn datas_of<H>(specs: Seq<Spec<H>>) -> Seq<SpecDataV> {
    specs.map_values(|s: Spec<H>| s.data@)
}

/// The index of the first specification carrying short option `c` at or
/// after `i`, or `specs.len()` when there is none.
pub open spec fn find_sopt_from(specs: Seq<SpecDataV>, c: char, i: int) -> int
    decreases specs.len() - i,
{
    if i < 0 || i >= specs.len() {
        specs.len() as int
    } else if specs[i].sopt == Some(c) {
        i
    } else {
        find_sopt_from(specs, c, i + 1)
    }
}

/// The index of the first specification carrying short option `c`, or
/// `specs.len()` when there is none.
pub open spec fn find_sopt(specs: Seq<SpecDataV>, c: char) -> int {
    find_sopt_from(specs, c, 0)
}

/// Looks up the first specification carrying short option `c`; the
/// length of the list means "none".
pub(crate) fn find_sopt_exec<H>(specs: &Vec<Spec<H>>, c: char) -> (r: usize)
    ensures
        r == find_sopt(datas_of(specs@), c),
        r <= specs.len(),
{
    let ghost ds = datas_of(specs@);
    let mut i: usize = 0;
    while i < specs.len()
        invariant
            i <= specs.len(),
            ds == datas_of(specs@),
            ds.len() == specs.len(),
            find_sopt(ds, c) == find_sopt_from(ds, c, i as int),
        decreases specs.len() - i,
    {
        let hit = match specs[i].data.sopt {
            Some(sc) => sc == c,
            None => false,
        };
        if hit {
            return i;
        }
        proof {
            assert(find_sopt_from(ds, c, i as int) == find_sopt_from(ds, c, i + 1));
        }
        i = i + 1;
    }
    specs.len()
}

/// Where the short-option cluster walk stops in `body` (the cluster
/// without its dash): at the end, just past the first character whose
/// specification takes arguments, or at the first character that no
/// specification carries, which is an error.
pub open spec fn cluster_stop(body: Seq<char>, specs: Seq<SpecDataV>, i: int) -> Result<int, char>
    decreases body.len() - i,
{
    if i < 0 || i >= body.len() {
        Result::Ok(i)
    } else {
        let j = find_sopt(specs, body[i]);
        if j == specs.len() {
            Result::Err(body[i])
        } else if specs[j].req_args() {
            Result::Ok(i + 1)
        } else {
            cluster_stop(body, specs, i + 1)
        }
    }
}

/// The cluster walk never stops before where it started nor past the end
/// of the cluster.
pub proof fn lemma_cluster_stop_bounds(body: Seq<char>, specs: Seq<SpecDataV>, i: int)
    requires
        0 <= i <= body.len(),
    ensures
        cluster_stop(body, specs, i) matches Ok(s) ==> i <= s <= body.len(),
    decreases body.len() - i,
{
    if i < body.len() {
        let j = find_sopt(specs, body[i]);
        if j != specs.len() && !specs[j].req_args() {
            lemma_cluster_stop_bounds(body, specs, i + 1);
        }
    }
}

/// What the token list holds in place of the cluster token `t` after the
/// short-option split: one token per flag character up to the stop
/// position, then the remaining characters as one value token; a cluster
/// that needs no splitting (a single flag with no trailing value) is left
/// alone.  An unregistered character is an error.
pub open spec fn split_sopt_res(t: Seq<char>, specs: Seq<SpecDataV>) -> Result<
    Seq<Seq<char>>,
    char,
> {
    let body = t.skip(1);
    match cluster_stop(body, specs, 0) {
        Result::Err(c) => Result::Err(c),
        Result::Ok(stop) => {
            if stop > 1 || stop != body.len() {
                let flags = Seq::new(stop as nat, |k: int| seq!['-', body[k]]);
                if stop != body.len() {
                    Result::Ok(flags.push(body.skip(stop)))
                } else {
                    Result::Ok(flags)
                }
            } else {
                Result::Ok(seq![t])
            }
        },
    }
}

/// Rewrites the short-option cluster `args[argidx]` in place: `-abc`
/// becomes `-a -b -c` when all three are zero-arity flags; the walk stops
/// at the first flag that takes arguments, and whatever follows it in the
/// cluster becomes that flag's value token (`-vfbar` becomes `-v -f
/// bar`).  A single flag that needs no splitting is left alone.  A
/// character that no specification carries fails with an unknown-option
/// error and leaves the token list unchanged.
pub fn split_sopts_arg<H>(args: &mut Vec<String>, argidx: usize, specs: &Vec<Spec<H>>) -> (r:
    Result<(), ErrKind>)
    requires
        argidx < old(args).len(),
        old(args).deep_view()[argidx as int].len() >= 1,
    ensures
        match split_sopt_res(old(args).deep_view()[argidx as int], datas_of(specs@)) {
            Result::Ok(pieces) => r is Ok && final(args).deep_view() == old(
                args,
            ).deep_view().take(argidx as int) + pieces + old(args).deep_view().skip(argidx + 1),
            Result::Err(c) => r matches Err(e) && e@ == (ErrKindV::UnknownOpt {
                name: seq![c],
            }) && *final(args) == *old(args),
        },
{
    let ghost pre = old(args).deep_view();
    let ghost t = pre[argidx as int];
    let ghost ds = datas_of(specs@);
    let ghost body = t.skip(1);
    let tok = args[argidx].clone();
    let n = tok.as_str().unicode_len();
    let m = n - 1;
    proof {
        assert(body.len() == m);
        assert(forall|k: int| 0 <= k < m ==> body[k] == t[k + 1]);
    }
    let mut idx: usize = 0;
    let mut broke = false;
    while idx < m && !broke
        invariant
            idx <= m,
            m + 1 == n,
            n == t.len(),
            tok@ == t,
            body == t.skip(1),
            ds == datas_of(specs@),
            ds.len() == specs@.len(),
            *args == *old(args),
            argidx < args.len(),
            pre == args.deep_view(),
            t == pre[argidx as int],
            broke ==> cluster_stop(body, ds, 0) == Result::<int, char>::Ok(idx as int),
            !broke ==> cluster_stop(body, ds, 0) == cluster_stop(body, ds, idx as int),
        decreases m - idx, if broke { 0int } else { 1int },
    {
        let c = tok.as_str().get_char(idx + 1);
        proof {
            assert(c == body[idx as int]);
        }
        let j = find_sopt_exec(specs, c);
        if j == specs.len() {
            let mut name = String::new();
            push_char(&mut name, c);
            proof {
                assert(name@ =~= seq![c]);
                assert(cluster_stop(body, ds, idx as int) == Result::<int, char>::Err(c));
            }
            return Result::Err(ErrKind::UnknownOpt(name));
        }
        if specs[j].data.req_args() {
            proof {
                assert(cluster_stop(body, ds, idx as int) == Result::<int, char>::Ok(idx + 1));
            }
            idx = idx + 1;
            broke = true;
        } else {
            proof {
                assert(cluster_stop(body, ds, idx as int) == cluster_stop(body, ds, idx + 1));
            }
            idx = idx + 1;
        }
    }
    proof {
        assert(cluster_stop(body, ds, 0) == Result::<int, char>::Ok(idx as int));
    }
    if idx > 1 || idx != m {
        let ghost flags = Seq::new(idx as nat, |k: int| seq!['-', body[k]]);
        let rest: Option<String> = if idx != m {
            Some(String::from_str(tok.as_str().substring_char(idx + 1, n)))
        } else {
            None
        };
        proof {
            if idx != m {
                assert(rest->0@ =~= body.skip(idx as int));
            }
        }
        let ghost args0 = *args;
        args.remove(argidx);
        proof {
            lemma_deep_view_remove(args0, *args, argidx as int);
            assert(args.deep_view() =~= pre.take(argidx as int) + pre.skip(argidx + 1));
        }
        let mut i: usize = 0;
        while i < idx
            invariant
                i <= idx,
                idx <= m,
                m + 1 == n,
                n == t.len(),
                tok@ == t,
                body == t.skip(1),
                flags == Seq::new(idx as nat, |k: int| seq!['-', body[k]]),
                args.deep_view() == pre.take(argidx as int) + flags.take(i as int) + pre.skip(
                    argidx + 1,
                ),
                args.len() == pre.len() - 1 + i,
                argidx + i <= args.len(),
            decreases idx - i,
        {
            let mut opt = String::from_str("-");
            push_char(&mut opt, tok.as_str().get_char(i + 1));
            proof {
                reveal_strlit("-");
                assert(opt@ =~= flags[i as int]);
            }
            let ghost args1 = *args;
            args.insert(argidx + i, opt);
            proof {
                lemma_deep_view_insert(args1, *args, argidx + i, opt);
                assert(args.deep_view() =~= pre.take(argidx as int) + flags.take(i + 1) + pre.skip(
                    argidx + 1,
                ));
            }
            i = i + 1;
        }
        proof {
            assert(flags.take(idx as int) =~= flags);
        }
        match rest {
            Some(restv) => {
                let ghost args2 = *args;
                let ghost restc = restv@;
                args.insert(argidx + idx, restv);
                proof {
                    lemma_deep_view_insert(args2, *args, argidx + idx, restv);
                    assert(restc == body.skip(idx as int));
                    assert(args.deep_view() =~= pre.take(argidx as int) + flags.push(
                        body.skip(idx as int),
                    ) + pre.skip(argidx + 1));
                }
            },
            None => {},
        }
    } else {
        proof {
            assert(seq![t].take(1) =~= seq![t]);
            assert(args.deep_view() =~= pre.take(argidx as int) + seq![t] + pre.skip(argidx + 1));
        }
    }
    Result::Ok(())
}

/// Whether enough tokens remain for the specification's fixed trailing
/// count: from `idx` to the end, not counting the option token itself
/// when `offset` is set.
pub open spec fn req_arg_count_ok(
    args: Seq<Seq<char>>,
    idx: int,
    d: SpecDataV,
    offset: bool,
) -> bool {
    d.nargs_count() == 0 || args.len() - idx - (if offset {
        1int
    } else {
        0int
    }) >= d.nargs_count()
}

/// Checks that there are enough tokens remaining, from `idx` on, for the
/// specification's fixed trailing-token count; for an option (`offset`
/// set) the option token at `idx` itself does not count.
pub fn check_req_arg_count(args: &Vec<String>, idx: usize, data: &SpecData, offset: bool) -> (r:
    bool)
    requires
        !data@.is_capture_rest(),
        idx < args.len(),
    ensures
        r == req_arg_count_ok(args.deep_view(), idx as int, data@, offset),
{
    let nargs = data.get_nargs();
    if nargs != 0 {
        let nremain = if offset {
            args.len() - idx - 1
        } else {
            args.len() - idx
        };
        nremain >= nargs
    } else {
        true
    }
}

} // verus!
