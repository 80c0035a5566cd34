use vstd::prelude::*;

verus! {

/// How many trailing tokens a specification consumes.
#[derive(Copy, Clone)]
pub enum Nargs {
    /// No trailing tokens.
    Zero,
    /// Exactly this many trailing tokens.
    Count(usize),
    /// Every token from the current position to the end of the input.
    Remainder,
}

impl Default for Nargs {
    fn default() -> (r: Self)
        ensures
            r is Zero,
    {
        Nargs::Zero
    }
}

/// Ghost mirror of [`SpecData`]: the same fields with every string
/// abstracted to its character sequence.
pub ghost struct SpecDataV {
    pub sopt: Option<char>,
    pub lopt: Option<Seq<char>>,
    pub name: Option<Seq<char>>,
    pub nargs: Nargs,
    pub exit: bool,
    pub required: bool,
    pub metanames: Seq<Seq<char>>,
    pub desc: Seq<Seq<char>>,
    pub hidden: bool,
}

/// The descriptive part of an argument specification: identity, arity
/// policy, flags and help metadata, without the handler.  Handlers receive
/// a reference to this data so that one handler function can serve several
/// specifications.
pub struct SpecData {
    /// Optional short option character.  Must be unique within a
    /// [`crate::parser::Parser`].  A specification with a short or long
    /// option is an "option", not a positional argument.
    pub sopt: Option<char>,
    /// Optional long option name (without the leading dashes).  Must be
    /// unique within a [`crate::parser::Parser`].
    pub lopt: Option<String>,
    /// Optional argument name.  A specification with a name and neither a
    /// short nor a long option is a positional argument.
    pub name: Option<String>,
    /// How many trailing tokens this specification consumes.
    pub nargs: Nargs,
    /// Whether a successful dispatch of this specification ends the run
    /// loop immediately.
    pub exit: bool,
    /// Whether this positional argument must be matched.
    pub required: bool,
    /// Display names for the consumed tokens, used in usage strings.
    pub metanames: Vec<String>,
    /// Help text paragraphs.
    pub desc: Vec<String>,
    /// Hidden specifications work as usual but are left out of rendered
    /// help.
    pub hidden: bool,
}

impl View for SpecData {
    type V = SpecDataV;

    open spec fn view(&self) -> SpecDataV {
        SpecDataV {
            sopt: self.sopt,
            lopt: self.lopt.deep_view(),
            name: self.name.deep_view(),
            nargs: self.nargs,
            exit: self.exit,
            required: self.required,
            metanames: self.metanames.deep_view(),
            desc: self.desc.deep_view(),
            hidden: self.hidden,
        }
    }
}

impl SpecDataV {
    /// Whether this specification captures every remaining token.
    pub open spec fn is_capture_rest(self) -> bool {
        self.nargs is Remainder
    }

    /// Whether this specification is an option (short or long).
    pub open spec fn is_opt(self) -> bool {
        self.sopt is Some || self.lopt is Some
    }

    /// Whether this specification is a positional argument.
    pub open spec fn is_pos(self) -> bool {
        self.sopt is None && self.lopt is None
    }

    /// The fixed number of trailing tokens, for non-remainder arities.
    pub open spec fn nargs_count(self) -> int {
        match self.nargs {
            Nargs::Zero => 0,
            Nargs::Count(n) => n as int,
            Nargs::Remainder => 0,
        }
    }

    /// Whether this specification requires at least one trailing token.
    pub open spec fn req_args(self) -> bool {
        match self.nargs {
            Nargs::Zero => false,
            Nargs::Count(n) => n > 0,
            Nargs::Remainder => false,
        }
    }
}

/// The given words separated by single spaces.
pub open spec fn join_words(ws: Seq<Seq<char>>) -> Seq<char>
    decreases ws.len(),
{
    if ws.len() == 0 {
        Seq::empty()
    } else if ws.len() == 1 {
        ws[0]
    } else {
        ws[0] + seq![' '] + join_words(ws.drop_first())
    }
}

pub proof fn lemma_join_words_push(ws: Seq<Seq<char>>, w: Seq<char>)
    ensures
        join_words(ws.push(w)) == if ws.len() == 0 {
            w
        } else {
            join_words(ws) + seq![' '] + w
        },
    decreases ws.len(),
{
    if ws.len() == 0 {
        assert(ws.push(w)[0] == w);
    } else if ws.len() == 1 {
        assert(ws.push(w).drop_first() =~= ws.drop_first().push(w));
        lemma_join_words_push(ws.drop_first(), w);
    } else {
        assert(ws.push(w).drop_first() =~= ws.drop_first().push(w));
        lemma_join_words_push(ws.drop_first(), w);
        assert(join_words(ws.push(w)) == ws[0] + seq![' '] + join_words(ws.drop_first().push(w)));
        assert(join_words(ws) + seq![' '] + w == ws[0] + seq![' '] + (join_words(ws.drop_first())
            + seq![' '] + w)) by {
            assert(join_words(ws) == ws[0] + seq![' '] + join_words(ws.drop_first()));
            assert((ws[0] + seq![' '] + join_words(ws.drop_first())) + seq![' '] + w =~= ws[0]
                + seq![' '] + (join_words(ws.drop_first()) + seq![' '] + w));
        }
    }
}

/// The display names a specification ends up with after `metanames`: one
/// name for each consumed token (one for a remainder capture), taken from
/// the caller's list and padded with the generic placeholder.
pub open spec fn padded_metanames(nargs: Nargs, names: Seq<Seq<char>>) -> Seq<Seq<char>> {
    let n: int = match nargs {
        Nargs::Zero => 0,
        Nargs::Count(k) => k as int,
        Nargs::Remainder => 1,
    };
    Seq::new(n as nat, |i: int| if i < names.len() { names[i] } else { "ARG"@ })
}

impl SpecDataV {
    /// The joined display names: `None` for a zero-arity specification,
    /// the space-separated names for a fixed arity, the first name (or the
    /// generic placeholder) for a remainder capture.
    pub open spec fn joined_meta_str(self) -> Option<Seq<char>> {
        match self.nargs {
            Nargs::Zero => None,
            Nargs::Count(_) => Some(join_words(self.metanames)),
            Nargs::Remainder => Some(
                if self.metanames.len() > 0 {
                    self.metanames[0]
                } else {
                    "ARG"@
                },
            ),
        }
    }

    /// The short option as written on a command line: a dash and the
    /// character.
    pub open spec fn sopt_str(self) -> Option<Seq<char>> {
        match self.sopt {
            Some(c) => Some(seq!['-', c]),
            None => None,
        }
    }

    /// The long option as written on a command line: two dashes and the
    /// name.
    pub open spec fn lopt_str(self) -> Option<Seq<char>> {
        match self.lopt {
            Some(l) => Some(seq!['-', '-'] + l),
            None => None,
        }
    }

    /// The short option followed by its display names, if any.
    pub open spec fn soptarg_str(self) -> Option<Seq<char>> {
        match self.sopt_str() {
            Some(o) => Some(
                match self.joined_meta_str() {
                    Some(m) => o + seq![' '] + m,
                    None => o,
                },
            ),
            None => None,
        }
    }

    /// The long option followed by its display names, if any.
    pub open spec fn loptarg_str(self) -> Option<Seq<char>> {
        match self.lopt_str() {
            Some(o) => Some(
                match self.joined_meta_str() {
                    Some(m) => o + seq![' '] + m,
                    None => o,
                },
            ),
            None => None,
        }
    }

    /// The string wrapped in angle brackets when the specification is
    /// required, square brackets otherwise.
    pub open spec fn bracketed(self, s: Seq<char>) -> Seq<char> {
        if self.required {
            seq!['<'] + s + seq!['>']
        } else {
            seq!['['] + s + seq![']']
        }
    }

    /// The short usage form, bracketed.
    pub open spec fn sopt_usage_str(self) -> Option<Seq<char>> {
        match self.soptarg_str() {
            Some(s) => Some(self.bracketed(s)),
            None => None,
        }
    }

    /// The long usage form, bracketed.
    pub open spec fn lopt_usage_str(self) -> Option<Seq<char>> {
        match self.loptarg_str() {
            Some(s) => Some(self.bracketed(s)),
            None => None,
        }
    }

    /// The option forms joined with a comma, or the display names for a
    /// positional argument.
    pub open spec fn opts_usage_str(self) -> Seq<char> {
        match (self.soptarg_str(), self.loptarg_str()) {
            (Some(a), Some(b)) => a + seq![',', ' '] + b,
            (Some(a), None) => a,
            (None, Some(b)) => b,
            (None, None) => match self.joined_meta_str() {
                Some(m) => m,
                None => Seq::empty(),
            },
        }
    }

    /// The body of the usage form: the long option if present, else the
    /// short option, else the display names (with the repetition marker
    /// for a remainder capture).
    pub open spec fn usage_core(self) -> Seq<char> {
        match self.loptarg_str() {
            Some(o) => o,
            None => match self.soptarg_str() {
                Some(o) => o,
                None => {
                    let m = match self.joined_meta_str() {
                        Some(m) => m,
                        None => Seq::empty(),
                    };
                    match self.nargs {
                        Nargs::Remainder => m + seq![' ', '['] + m + seq![' ', '.', '.', '.', ']'],
                        _ => m,
                    }
                },
            },
        }
    }
}

/// Relies on `String::push`: appends exactly the one given character.
#[verifier::external_body]
pub(crate) fn push_char(s: &mut String, c: char)
    ensures
        final(s)@ == old(s)@.push(c),
{
    s.push(c)
}

/// The words of `ws` joined with single spaces.
fn join_spaces(ws: &Vec<String>) -> (r: String)
    ensures
        r@ == join_words(ws.deep_view()),
{
    let mut r = String::new();
    let mut i: usize = 0;
    while i < ws.len()
        invariant
            i <= ws.len(),
            r@ == join_words(ws.deep_view().take(i as int)),
        decreases ws.len() - i,
    {
        if i > 0 {
            r.append(" ");
            proof {
                reveal_strlit(" ");
            }
        }
        r.append(ws[i].as_str());
        proof {
            let dv = ws.deep_view();
            assert(dv.take(i + 1) =~= dv.take(i as int).push(dv[i as int]));
            lemma_join_words_push(dv.take(i as int), dv[i as int]);
            assert(dv.take(i as int).len() == i);
            if i > 0 {
                assert(r@ =~= join_words(dv.take(i as int)) + seq![' '] + dv[i as int]);
            } else {
                assert(r@ =~= dv[0]);
            }
            assert(r@ == join_words(dv.take(i + 1)));
        }
        i = i + 1;
    }
    proof {
        assert(ws.deep_view().take(ws.len() as int) =~= ws.deep_view());
    }
    r
}

impl SpecData {
    /// Whether this specification is configured to capture all remaining
    /// tokens.
    pub fn is_capture_rest(&self) -> (r: bool)
        ensures
            r == self@.is_capture_rest(),
    {
        match self.nargs {
            Nargs::Zero => false,
            Nargs::Count(_) => false,
            Nargs::Remainder => true,
        }
    }

    /// Whether a successful dispatch of this specification ends the run
    /// loop.
    pub fn is_exit(&self) -> (r: bool)
        ensures
            r == self@.exit,
    {
        self.exit
    }

    /// Whether this specification is an "option": it carries a short
    /// option character, a long option name, or both.
    pub fn is_opt(&self) -> (r: bool)
        ensures
            r == self@.is_opt(),
    {
        self.sopt.is_some() || self.lopt.is_some()
    }

    /// Whether this specification is a positional argument.
    pub fn is_pos(&self) -> (r: bool)
        ensures
            r == self@.is_pos(),
    {
        self.sopt.is_none() && self.lopt.is_none()
    }

    /// Whether this positional argument must be matched.
    pub fn is_req(&self) -> (r: bool)
        ensures
            r == self@.required,
    {
        self.required
    }

    /// Whether this specification is left out of rendered help.
    pub fn is_hidden(&self) -> (r: bool)
        ensures
            r == self@.hidden,
    {
        self.hidden
    }

    /// The fixed number of trailing tokens this specification consumes.
    /// A remainder capture has no such number.
    pub fn get_nargs(&self) -> (r: usize)
        requires
            !self@.is_capture_rest(),
        ensures
            r == self@.nargs_count(),
    {
        match self.nargs {
            Nargs::Zero => 0,
            Nargs::Count(n) => n,
            Nargs::Remainder => 0,
        }
    }

    /// Whether this specification requires at least one trailing token.
    pub fn req_args(&self) -> (r: bool)
        ensures
            r == self@.req_args(),
    {
        match self.nargs {
            Nargs::Zero => false,
            Nargs::Count(n) => n > 0,
            Nargs::Remainder => false,
        }
    }

    /// The short option as written on a command line, e.g. `-h`.
    pub fn get_sopt_str(&self) -> (r: Option<String>)
        ensures
            r.deep_view() == self@.sopt_str(),
    {
        match self.sopt {
            Some(c) => {
                let mut s = String::from_str("-");
                push_char(&mut s, c);
                proof {
                    reveal_strlit("-");
                    assert(s@ =~= seq!['-', c]);
                }
                Some(s)
            },
            None => None,
        }
    }

    /// The long option as written on a command line, e.g. `--help`.
    pub fn get_lopt_str(&self) -> (r: Option<String>)
        ensures
            r.deep_view() == self@.lopt_str(),
    {
        match &self.lopt {
            Some(l) => {
                let mut s = String::from_str("--");
                s.append(l.as_str());
                proof {
                    reveal_strlit("--");
                    assert(s@ =~= seq!['-', '-'] + l@);
                }
                Some(s)
            },
            None => None,
        }
    }

    /// The joined display names of the consumed tokens, if any.
    pub fn get_joined_meta_str(&self) -> (r: Option<String>)
        ensures
            r.deep_view() == self@.joined_meta_str(),
    {
        match self.nargs {
            Nargs::Zero => None,
            Nargs::Count(_) => Some(join_spaces(&self.metanames)),
            Nargs::Remainder => {
                if self.metanames.len() > 0 {
                    Some(self.metanames[0].clone())
                } else {
                    Some(String::from_str("ARG"))
                }
            },
        }
    }

    /// The short option followed by its display names, e.g. `-f FILE`.
    pub fn get_soptarg_str(&self) -> (r: Option<String>)
        ensures
            r.deep_view() == self@.soptarg_str(),
    {
        match self.get_sopt_str() {
            Some(o) => {
                let mut ret = o;
                match self.get_joined_meta_str() {
                    Some(m) => {
                        ret.append(" ");
                        ret.append(m.as_str());
                        proof {
                            reveal_strlit(" ");
                            assert(ret@ =~= self@.sopt_str()->0 + seq![' '] + m@);
                        }
                    },
                    None => {},
                }
                Some(ret)
            },
            None => None,
        }
    }

    /// The long option followed by its display names, e.g. `--file FILE`.
    pub fn get_loptarg_str(&self) -> (r: Option<String>)
        ensures
            r.deep_view() == self@.loptarg_str(),
    {
        match self.get_lopt_str() {
            Some(o) => {
                let mut ret = o;
                match self.get_joined_meta_str() {
                    Some(m) => {
                        ret.append(" ");
                        ret.append(m.as_str());
                        proof {
                            reveal_strlit(" ");
                            assert(ret@ =~= self@.lopt_str()->0 + seq![' '] + m@);
                        }
                    },
                    None => {},
                }
                Some(ret)
            },
            None => None,
        }
    }

    /// The given string wrapped in angle brackets when this specification
    /// is required, square brackets otherwise.
    fn bracket(&self, s: &String) -> (r: String)
        ensures
            r@ == self@.bracketed(s@),
    {
        let mut ret = if self.required {
            String::from_str("<")
        } else {
            String::from_str("[")
        };
        ret.append(s.as_str());
        if self.required {
            ret.append(">");
        } else {
            ret.append("]");
        }
        proof {
            reveal_strlit("<");
            reveal_strlit(">");
            reveal_strlit("[");
            reveal_strlit("]");
            if self.required {
                assert(ret@ =~= seq!['<'] + s@ + seq!['>']);
            } else {
                assert(ret@ =~= seq!['['] + s@ + seq![']']);
            }
        }
        ret
    }

    /// The bracketed short usage form, e.g. `[-f FILE]`.
    pub fn get_sopt_usage_str(&self) -> (r: Option<String>)
        ensures
            r.deep_view() == self@.sopt_usage_str(),
    {
        match self.get_soptarg_str() {
            Some(o) => Some(self.bracket(&o)),
            None => None,
        }
    }

    /// The bracketed long usage form, e.g. `[--file FILE]`.
    pub fn get_lopt_usage_str(&self) -> (r: Option<String>)
        ensures
            r.deep_view() == self@.lopt_usage_str(),
    {
        match self.get_loptarg_str() {
            Some(o) => Some(self.bracket(&o)),
            None => None,
        }
    }

    /// Both option forms joined with a comma, e.g. `-f FILE, --file FILE`;
    /// for a positional argument, its display names.
    pub fn get_opts_usage_str(&self) -> (r: String)
        ensures
            r@ == self@.opts_usage_str(),
    {
        match (self.get_soptarg_str(), self.get_loptarg_str()) {
            (Some(a), Some(b)) => {
                let mut ret = a;
                ret.append(", ");
                ret.append(b.as_str());
                proof {
                    reveal_strlit(", ");
                    assert(ret@ =~= self@.soptarg_str()->0 + seq![',', ' ']
                        + self@.loptarg_str()->0);
                }
                ret
            },
            (Some(a), None) => a,
            (None, Some(b)) => b,
            (None, None) => match self.get_joined_meta_str() {
                Some(m) => m,
                None => {
                    let s = String::new();
                    proof {
                        assert(s@ =~= Seq::<char>::empty());
                    }
                    s
                },
            },
        }
    }

    /// The representation of this specification for a `Usage:` line.
    ///
    /// Required specifications are enclosed in `<` and `>`, optional ones
    /// in `[` and `]`.  A positional argument must consume at least one
    /// token to be rendered.
    pub fn get_usage_str(&self) -> (r: String)
        requires
            self@.is_opt() || !(self@.nargs is Zero),
        ensures
            r@ == self@.bracketed(self@.usage_core()),
    {
        let core = match self.get_loptarg_str() {
            Some(o) => o,
            None => match self.get_soptarg_str() {
                Some(o) => o,
                None => {
                    let m = match self.get_joined_meta_str() {
                        Some(m) => m,
                        None => String::new(),
                    };
                    match self.nargs {
                        Nargs::Remainder => {
                            let mut s = m.clone();
                            s.append(" [");
                            s.append(m.as_str());
                            s.append(" ...]");
                            proof {
                                reveal_strlit(" [");
                                reveal_strlit(" ...]");
                                assert(s@ =~= m@ + seq![' ', '['] + m@ + seq![
                                    ' ',
                                    '.',
                                    '.',
                                    '.',
                                    ']',
                                ]);
                            }
                            s
                        },
                        _ => m,
                    }
                },
            },
        };
        proof {
            assert(core@ == self@.usage_core());
        }
        self.bracket(&core)
    }

    /// The heading of this specification's help entry: both option forms
    /// joined with a comma, or a positional argument's display names.
    pub fn get_help_title_str(&self) -> (r: String)
        ensures
            r@ == self@.opts_usage_str(),
    {
        self.get_opts_usage_str()
    }

    /// The help text paragraphs.
    pub fn get_help_text(&self) -> (r: &Vec<String>)
        ensures
            r == &self.desc,
    {
        &self.desc
    }
}

/// Accumulates the fields of a [`SpecData`] before finalization.  The
/// builder validates nothing; [`Builder::build`] always succeeds.
pub struct Builder {
    data: SpecData,
}

impl View for Builder {
    type V = SpecDataV;

    closed spec fn view(&self) -> SpecDataV {
        self.data@
    }
}

impl Builder {
    /// A builder with no identity, no arity and no flags set.
    pub fn new() -> (r: Self)
        ensures
            r@ == (SpecDataV {
                sopt: None,
                lopt: None,
                name: None,
                nargs: Nargs::Zero,
                exit: false,
                required: false,
                metanames: Seq::empty(),
                desc: Seq::empty(),
                hidden: false,
            }),
    {
        let r = Builder {
            data: SpecData {
                sopt: None,
                lopt: None,
                name: None,
                nargs: Nargs::Zero,
                exit: false,
                required: false,
                metanames: Vec::new(),
                desc: Vec::new(),
                hidden: false,
            },
        };
        proof {
            assert(r@.metanames =~= Seq::<Seq<char>>::empty());
            assert(r@.desc =~= Seq::<Seq<char>>::empty());
        }
        r
    }

    /// Give the specification a short option character.
    pub fn sopt(self, sopt: char) -> (r: Self)
        ensures
            r@ == (SpecDataV { sopt: Some(sopt), ..self@ }),
    {
        Builder { data: SpecData { sopt: Some(sopt), ..self.data } }
    }

    /// Give the specification a long option name.
    pub fn lopt(self, lopt: &str) -> (r: Self)
        ensures
            r@ == (SpecDataV { lopt: Some(lopt@), ..self@ }),
    {
        Builder { data: SpecData { lopt: Some(String::from_str(lopt)), ..self.data } }
    }

    /// Give the specification a name.  This is what makes a specification
    /// without options a positional argument.
    pub fn name(self, name: &str) -> (r: Self)
        ensures
            r@ == (SpecDataV { name: Some(name@), ..self@ }),
    {
        Builder { data: SpecData { name: Some(String::from_str(name)), ..self.data } }
    }

    /// Declare how many trailing tokens the specification consumes, and
    /// derive the display names used in usage strings from `metanames`,
    /// padding missing ones with a generic placeholder.
    pub fn nargs(self, nargs: Nargs, metanames: &Vec<String>) -> (r: Self)
        ensures
            r@ == (SpecDataV {
                nargs,
                metanames: padded_metanames(nargs, metanames.deep_view()),
                ..self@
            }),
    {
        let mid = Builder { data: SpecData { nargs, ..self.data } };
        mid.metanames(metanames)
    }

    /// Derive the display names for the consumed tokens from `metanames`:
    /// one for each consumed token, padded with a generic placeholder
    /// where the list is short.
    pub fn metanames(self, metanames: &Vec<String>) -> (r: Self)
        ensures
            r@ == (SpecDataV {
                metanames: padded_metanames(self@.nargs, metanames.deep_view()),
                ..self@
            }),
    {
        let n: usize = match self.data.nargs {
            Nargs::Zero => 0,
            Nargs::Count(k) => k,
            Nargs::Remainder => 1,
        };
        let mut names: Vec<String> = Vec::new();
        let mut i: usize = 0;
        while i < n
            invariant
                i <= n,
                names.deep_view() =~= padded_metanames(self@.nargs, metanames.deep_view()).take(
                    i as int,
                ),
                n == match self@.nargs {
                    Nargs::Zero => 0int,
                    Nargs::Count(k) => k as int,
                    Nargs::Remainder => 1int,
                },
            decreases n - i,
        {
            if i < metanames.len() {
                names.push(metanames[i].clone());
            } else {
                names.push(String::from_str("ARG"));
            }
            proof {
                let p = padded_metanames(self@.nargs, metanames.deep_view());
                assert(p.take(i + 1) =~= p.take(i as int).push(p[i as int]));
            }
            i = i + 1;
        }
        proof {
            let p = padded_metanames(self@.nargs, metanames.deep_view());
            assert(p.take(n as int) =~= p);
        }
        Builder { data: SpecData { metanames: names, ..self.data } }
    }

    /// Declare whether a successful dispatch of this specification should
    /// end the run loop immediately.  Useful for options such as `--help`
    /// that replace normal program behaviour.
    pub fn exit(self, exit: bool) -> (r: Self)
        ensures
            r@ == (SpecDataV { exit, ..self@ }),
    {
        Builder { data: SpecData { exit, ..self.data } }
    }

    /// Declare whether the argument must be matched.  Only meaningful for
    /// positional arguments.
    pub fn required(self, req: bool) -> (r: Self)
        ensures
            r@ == (SpecDataV { required: req, ..self@ }),
    {
        Builder { data: SpecData { required: req, ..self.data } }
    }

    /// Declare whether the specification is left out of rendered help.
    /// Hidden specifications work as usual otherwise.
    pub fn hidden(self, hidden: bool) -> (r: Self)
        ensures
            r@ == (SpecDataV { hidden, ..self@ }),
    {
        Builder { data: SpecData { hidden, ..self.data } }
    }

    /// Append paragraphs to the help text.
    pub fn help(self, text: &Vec<String>) -> (r: Self)
        ensures
            r@ == (SpecDataV { desc: self@.desc + text.deep_view(), ..self@ }),
    {
        let mut data = self.data;
        let mut i: usize = 0;
        while i < text.len()
            invariant
                i <= text.len(),
                data.desc.deep_view() =~= self@.desc + text.deep_view().take(i as int),
                data == (SpecData { desc: data.desc, ..self.data }),
            decreases text.len() - i,
        {
            data.desc.push(text[i].clone());
            proof {
                assert(self@.desc + text.deep_view().take(i + 1) =~= (self@.desc
                    + text.deep_view().take(i as int)).push(text.deep_view()[i as int]));
            }
            i = i + 1;
        }
        proof {
            assert(self@.desc + text.deep_view().take(text.len() as int) =~= self@.desc
                + text.deep_view());
        }
        Builder { data }
    }

    /// Finish the specification, binding `proc` as its handler.
    pub fn build<H>(self, proc: H) -> (s: Spec<H>)
        ensures
            s.data == self.get_data(),
            s.data@ == self@,
            s.proc == proc,
    {
        Spec { data: self.data, proc }
    }

    /// The accumulated descriptive data.
    pub closed spec fn get_data(&self) -> SpecData {
        self.data
    }
}

/// True when the handler can be invoked on every specification, context
/// and payload.  The parser demands this of each registered handler,
/// since which calls it will make depends on the token stream.
pub open spec fn handler_total<C, H: Fn(&SpecData, C, Vec<String>) -> C>(h: H) -> bool {
    forall|d: SpecData, c: C, a: Vec<String>| call_requires(h, (&d, c, a))
}

/// One option or positional argument specification: descriptive data plus
/// the handler the parser dispatches matched tokens to.
///
/// The handler takes the specification's data, the context by value and
/// the matched tokens, and returns the updated context.  All
/// specifications registered with one parser share the handler type, so a
/// program with several distinct behaviours registers one handler
/// function that tells the specifications apart by their data.
pub struct Spec<H> {
    /// The descriptive data: identity, arity, flags and help metadata.
    pub data: SpecData,
    /// The bound handler.
    pub proc: H,
}

impl<H> Spec<H> {
    /// Whether this specification is configured to capture all remaining
    /// tokens.
    pub fn is_capture_rest(&self) -> (r: bool)
        ensures
            r == self.data@.is_capture_rest(),
    {
        self.data.is_capture_rest()
    }

    /// Whether a successful dispatch of this specification ends the run
    /// loop.
    pub fn is_exit(&self) -> (r: bool)
        ensures
            r == self.data@.exit,
    {
        self.data.is_exit()
    }

    /// Whether this specification is an "option": it carries a short
    /// option character, a long option name, or both.
    pub fn is_opt(&self) -> (r: bool)
        ensures
            r == self.data@.is_opt(),
    {
        self.data.is_opt()
    }

    /// Whether this specification is a positional argument.
    pub fn is_pos(&self) -> (r: bool)
        ensures
            r == self.data@.is_pos(),
    {
        self.data.is_pos()
    }

    /// Whether this positional argument must be matched.
    pub fn is_req(&self) -> (r: bool)
        ensures
            r == self.data@.required,
    {
        self.data.is_req()
    }

    /// Whether this specification is left out of rendered help.
    pub fn is_hidden(&self) -> (r: bool)
        ensures
            r == self.data@.hidden,
    {
        self.data.is_hidden()
    }

    /// The fixed number of trailing tokens this specification consumes.
    pub fn get_nargs(&self) -> (r: usize)
        requires
            !self.data@.is_capture_rest(),
        ensures
            r == self.data@.nargs_count(),
    {
        self.data.get_nargs()
    }

    /// Whether this specification requires at least one trailing token.
    pub fn req_args(&self) -> (r: bool)
        ensures
            r == self.data@.req_args(),
    {
        self.data.req_args()
    }

    /// The short option as written on a command line, e.g. `-h`.
    pub fn get_sopt_str(&self) -> (r: Option<String>)
        ensures
            r.deep_view() == self.data@.sopt_str(),
    {
        self.data.get_sopt_str()
    }

    /// The long option as written on a command line, e.g. `--help`.
    pub fn get_lopt_str(&self) -> (r: Option<String>)
        ensures
            r.deep_view() == self.data@.lopt_str(),
    {
        self.data.get_lopt_str()
    }

    /// The joined display names of the consumed tokens, if any.
    pub fn get_joined_meta_str(&self) -> (r: Option<String>)
        ensures
            r.deep_view() == self.data@.joined_meta_str(),
    {
        self.data.get_joined_meta_str()
    }

    /// The short option followed by its display names, e.g. `-f FILE`.
    pub fn get_soptarg_str(&self) -> (r: Option<String>)
        ensures
            r.deep_view() == self.data@.soptarg_str(),
    {
        self.data.get_soptarg_str()
    }

    /// The long option followed by its display names, e.g. `--file FILE`.
    pub fn get_loptarg_str(&self) -> (r: Option<String>)
        ensures
            r.deep_view() == self.data@.loptarg_str(),
    {
        self.data.get_loptarg_str()
    }

    /// The bracketed short usage form, e.g. `[-f FILE]`.
    pub fn get_sopt_usage_str(&self) -> (r: Option<String>)
        ensures
            r.deep_view() == self.data@.sopt_usage_str(),
    {
        self.data.get_sopt_usage_str()
    }

    /// The bracketed long usage form, e.g. `[--file FILE]`.
    pub fn get_lopt_usage_str(&self) -> (r: Option<String>)
        ensures
            r.deep_view() == self.data@.lopt_usage_str(),
    {
        self.data.get_lopt_usage_str()
    }

    /// Both option forms joined with a comma, e.g. `-f FILE, --file
    /// FILE`; for a positional argument, its display names.
    pub fn get_opts_usage_str(&self) -> (r: String)
        ensures
            r@ == self.data@.opts_usage_str(),
    {
        self.data.get_opts_usage_str()
    }

    /// The representation of this specification for a `Usage:` line.
    pub fn get_usage_str(&self) -> (r: String)
        requires
            self.data@.is_opt() || !(self.data@.nargs is Zero),
        ensures
            r@ == self.data@.bracketed(self.data@.usage_core()),
    {
        self.data.get_usage_str()
    }

    /// The heading of this specification's help entry.
    pub fn get_help_title_str(&self) -> (r: String)
        ensures
            r@ == self.data@.opts_usage_str(),
    {
        self.data.get_help_title_str()
    }

    /// The help text paragraphs.
    pub fn get_help_text(&self) -> (r: &Vec<String>)
        ensures
            r == &self.data.desc,
    {
        self.data.get_help_text()
    }
}

} // verus!
