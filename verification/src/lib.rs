//! A declarative command-line argument parser.
//!
//! The basic use pattern is:
//! 1. Create a context struct for storing parser output.
//! 2. Describe each option or positional argument with a [`Builder`] and
//!    finish it with [`Builder::build`], passing the handler function that
//!    will process the matched tokens.
//! 3. Create a [`Parser`] with [`Parser::from_args`], handing over
//!    ownership of the context struct.
//! 4. Add the [`Spec`] objects to the parser with [`Parser::add`].
//! 5. Call [`Parser::parse`].
//! 6. On success the context holds the data gathered from the command
//!    line; call [`Parser::into_ctx`] to regain ownership of it.

mod err;
mod parser;
mod prsrutil;
mod spec;

pub use crate::parser::{
    EngineV, Parser, StepPlan, add_err, copyout_res, dispatch_step, eq_but_err, find_lopt,
    find_lopt_from, find_name, find_name_from, first_required_from, lemma_collision_long,
    lemma_collision_name, lemma_collision_second_remainder, lemma_collision_short,
    lemma_find_lopt_from, lemma_find_name_from, lemma_find_sopt_from,
    lemma_positional_classification, lemma_registry_invariant, long_step, next_rel, opt_dispatch,
    pos_dispatch, pos_step, run_chain, short_step, step_plan, tok_weight, weight,
};
pub use crate::spec::{
    Builder, Nargs, Spec, SpecData, SpecDataV, handler_total, join_words, lemma_join_words_push,
    padded_metanames,
};

pub use crate::err::{ErrKind, ErrKindV, SpecErr};

pub use crate::prsrutil::{
    check_req_arg_count, cluster_stop, datas_of, find_char_from, find_sopt, find_sopt_from,
    lemma_cluster_stop_bounds, lemma_find_char_from, lemma_split_lopt_idempotent,
    lemma_split_lopt_no_eq, lemma_split_sopt_single, lopt_shape, maybe_lopt, maybe_sopt,
    req_arg_count_ok, sep_chars, sopt_shape, split_lopt, split_lopt_res, split_sopt_res,
    split_sopts_arg,
};
