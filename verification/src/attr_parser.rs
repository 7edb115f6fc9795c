/// Parsing module for `#[cfg(..)]` attributes.
///
/// The tokens of an attribute are read into `CfgToken`s (identifiers, single
/// punctuation characters, literals as written, and delimited groups), and a
/// predicate is parsed from them.
use vstd::prelude::*;

use crate::text::{chars_of, from_chars, str_eq};

verus! {

/// A token of a `cfg` attribute.
#[derive(Debug)]
pub enum CfgToken {
    Ident(String),
    Punct(char),
    /// A literal, as it is written in the source (a string keeps its quotes).
    Literal(String),
    /// The tokens between a pair of delimiters.
    Group(Vec<CfgToken>),
}

/// Abstract view of a token.
pub enum CfgTokenView {
    Ident(Seq<char>),
    Punct(char),
    Literal(Seq<char>),
    Group(Seq<CfgTokenView>),
}

#[derive(Debug)]
pub enum CfgOpt {
    /// eg. `#[cfg(test)]`
    Name(String),
    /// eg. `#[cfg(feature = "std")]`
    Pair { key: String, value: String },
}

/// Abstract view of a configuration option.
pub enum CfgOptView {
    Name(Seq<char>),
    Pair { key: Seq<char>, value: Seq<char> },
}

#[derive(Debug)]
pub enum CfgPred {
    Invalid,
    Option(CfgOpt),
    All(Vec<CfgPred>),
    Any(Vec<CfgPred>),
    Not(Box<CfgPred>),
}

/// Abstract view of a predicate.
pub enum CfgPredView {
    Invalid,
    Option(CfgOptView),
    All(Seq<CfgPredView>),
    Any(Seq<CfgPredView>),
    Not(Box<CfgPredView>),
}

pub open spec fn token_view(t: CfgToken) -> CfgTokenView
    decreases t,
{
    match t {
        CfgToken::Ident(s) => CfgTokenView::Ident(s@),
        CfgToken::Punct(c) => CfgTokenView::Punct(c),
        CfgToken::Literal(s) => CfgTokenView::Literal(s@),
        CfgToken::Group(ts) => CfgTokenView::Group(token_views(ts@)),
    }
}

pub open spec fn token_views(ts: Seq<CfgToken>) -> Seq<CfgTokenView>
    decreases ts,
{
    if ts.len() == 0 {
        Seq::empty()
    } else {
        token_views(ts.drop_last()).push(token_view(ts.last()))
    }
}

impl View for CfgToken {
    type V = CfgTokenView;

    open spec fn view(&self) -> CfgTokenView {
        token_view(*self)
    }
}

impl View for CfgOpt {
    type V = CfgOptView;

    open spec fn view(&self) -> CfgOptView {
        match self {
            CfgOpt::Name(s) => CfgOptView::Name(s@),
            CfgOpt::Pair { key, value } => CfgOptView::Pair { key: key@, value: value@ },
        }
    }
}

pub open spec fn pred_view(p: CfgPred) -> CfgPredView
    decreases p,
{
    match p {
        CfgPred::Invalid => CfgPredView::Invalid,
        CfgPred::Option(o) => CfgPredView::Option(o@),
        CfgPred::All(ps) => CfgPredView::All(pred_views(ps@)),
        CfgPred::Any(ps) => CfgPredView::Any(pred_views(ps@)),
        CfgPred::Not(b) => CfgPredView::Not(Box::new(pred_view(*b))),
    }
}

pub open spec fn pred_views(ps: Seq<CfgPred>) -> Seq<CfgPredView>
    decreases ps,
{
    if ps.len() == 0 {
        Seq::empty()
    } else {
        pred_views(ps.drop_last()).push(pred_view(ps.last()))
    }
}

impl View for CfgPred {
    type V = CfgPredView;

    open spec fn view(&self) -> CfgPredView {
        pred_view(*self)
    }
}

impl From<CfgOpt> for CfgPred {
    fn from(opt: CfgOpt) -> (r: Self) {
        CfgPred::Option(opt)
    }
}

impl vstd::std_specs::convert::FromSpecImpl<CfgOpt> for CfgPred {
    open spec fn obeys_from_spec() -> bool {
        true
    }

    open spec fn from_spec(v: CfgOpt) -> CfgPred {
        CfgPred::Option(v)
    }
}

/// The values given for `key` in a list of enabled options: those of the first
/// entry with that key, if any.
pub open spec fn opt_lookup(opts: Seq<(Seq<char>, Seq<Seq<char>>)>, key: Seq<char>) -> Option<
    Seq<Seq<char>>,
>
    decreases opts.len(),
{
    if opts.len() == 0 {
        None
    } else if opts[0].0 == key {
        Some(opts[0].1)
    } else {
        opt_lookup(opts.drop_first(), key)
    }
}

/// The view of a list of enabled options.
pub open spec fn opts_view(opts: Seq<(String, Vec<String>)>) -> Seq<(Seq<char>, Seq<Seq<char>>)> {
    opts.map_values(|e: (String, Vec<String>)| (e.0@, e.1@.map_values(|s: String| s@)))
}

/// Whether a predicate holds under the enabled options.
pub open spec fn pred_enabled(p: CfgPredView, opts: Seq<(Seq<char>, Seq<Seq<char>>)>) -> bool
    decreases p,
{
    match p {
        CfgPredView::Invalid => false,
        CfgPredView::Option(o) => match o {
            CfgOptView::Name(name) => opt_lookup(opts, name) is Some,
            CfgOptView::Pair { key, value } => match opt_lookup(opts, key) {
                Some(values) => values.contains(value),
                None => false,
            },
        },
        CfgPredView::All(ps) => all_enabled(ps, opts),
        CfgPredView::Any(ps) => any_enabled(ps, opts),
        CfgPredView::Not(b) => !pred_enabled(*b, opts),
    }
}

/// Every predicate of the list holds.
pub open spec fn all_enabled(ps: Seq<CfgPredView>, opts: Seq<(Seq<char>, Seq<Seq<char>>)>) -> bool
    decreases ps,
{
    if ps.len() == 0 {
        true
    } else {
        all_enabled(ps.drop_last(), opts) && pred_enabled(ps.last(), opts)
    }
}

/// Some predicate of the list holds.
pub open spec fn any_enabled(ps: Seq<CfgPredView>, opts: Seq<(Seq<char>, Seq<Seq<char>>)>) -> bool
    decreases ps,
{
    if ps.len() == 0 {
        false
    } else {
        any_enabled(ps.drop_last(), opts) || pred_enabled(ps.last(), opts)
    }
}


/// Every `"` removed (the text of a string literal without its quotes).
pub open spec fn remove_quotes(s: Seq<char>) -> Seq<char> {
    s.filter(|c: char| c != '"')
}

/// The position after the predicate that starts at `p`: past the option, pair
/// or group it reads, and past the one token after it, which is the comma that
/// separates predicates (any other token there is dropped with it).
pub open spec fn next_pos(ts: Seq<CfgTokenView>, p: nat) -> nat {
    let n = ts.len();
    if p >= n {
        p
    } else if ts[p as int] is Ident {
        if p + 1 < n && ts[p as int + 1] == CfgTokenView::Punct('=') {
            if p + 2 < n && ts[p as int + 2] is Literal {
                if p + 4 <= n { p + 4 } else { n }
            } else {
                if p + 3 <= n { p + 3 } else { n }
            }
        } else if p + 1 < n && ts[p as int + 1] is Group {
            if p + 3 <= n { p + 3 } else { n }
        } else {
            if p + 2 <= n { p + 2 } else { n }
        }
    } else {
        p + 1
    }
}

/// The predicate that starts at token `p` (for `p` within the tokens).
pub open spec fn pred_at(ts: Seq<CfgTokenView>, p: nat) -> CfgPredView
    decreases ts, ts.len() - p, 0nat,
{
    let n = ts.len();
    if p >= n {
        CfgPredView::Invalid
    } else {
        match ts[p as int] {
            CfgTokenView::Ident(id) => {
                if p + 1 < n && ts[p as int + 1] == CfgTokenView::Punct('=') {
                    if p + 2 < n && ts[p as int + 2] is Literal {
                        CfgPredView::Option(
                            CfgOptView::Pair { key: id, value: remove_quotes(ts[p as int + 2]->Literal_0) },
                        )
                    } else {
                        CfgPredView::Invalid
                    }
                } else if p + 1 < n && ts[p as int + 1] is Group {
                    let ps = preds_from(ts[p as int + 1]->Group_0, 0);
                    if id == seq!['a', 'l', 'l'] {
                        CfgPredView::All(ps)
                    } else if id == seq!['a', 'n', 'y'] {
                        CfgPredView::Any(ps)
                    } else if id == seq!['n', 'o', 't'] {
                        CfgPredView::Not(
                            Box::new(
                                if ps.len() == 0 {
                                    CfgPredView::Invalid
                                } else {
                                    ps.last()
                                },
                            ),
                        )
                    } else {
                        CfgPredView::Invalid
                    }
                } else {
                    CfgPredView::Option(CfgOptView::Name(id))
                }
            },
            _ => CfgPredView::Invalid,
        }
    }
}

/// The predicates read one after the other from token `p` to the end.
pub open spec fn preds_from(ts: Seq<CfgTokenView>, p: nat) -> Seq<CfgPredView>
    decreases ts, ts.len() - p, 1nat,
{
    if p >= ts.len() {
        Seq::empty()
    } else {
        seq![pred_at(ts, p)] + preds_from(ts, next_pos(ts, p))
    }
}


proof fn lemma_token_views(ts: Seq<CfgToken>)
    ensures
        token_views(ts).len() == ts.len(),
        forall|i: int| 0 <= i < ts.len() ==> #[trigger] token_views(ts)[i] == token_view(ts[i]),
    decreases ts.len(),
{
    if ts.len() > 0 {
        lemma_token_views(ts.drop_last());
        assert forall|i: int| 0 <= i < ts.len() implies #[trigger] token_views(ts)[i] == token_view(ts[i]) by {
            if i < ts.len() - 1 {
                assert(ts.drop_last()[i] == ts[i]);
            }
        }
    }
}

proof fn lemma_pred_views(ps: Seq<CfgPred>)
    ensures
        pred_views(ps).len() == ps.len(),
        forall|i: int| 0 <= i < ps.len() ==> #[trigger] pred_views(ps)[i] == pred_view(ps[i]),
    decreases ps.len(),
{
    if ps.len() > 0 {
        lemma_pred_views(ps.drop_last());
        assert forall|i: int| 0 <= i < ps.len() implies #[trigger] pred_views(ps)[i] == pred_view(ps[i]) by {
            if i < ps.len() - 1 {
                assert(ps.drop_last()[i] == ps[i]);
            }
        }
    }
}

/// The text of a literal with every `"` removed.
fn remove_quotes_exec(s: &str) -> (r: String)
    ensures
        r@ == remove_quotes(s@),
{
    let v = chars_of(s);
    let mut out: Vec<char> = Vec::new();
    let mut i: usize = 0;
    while i < v.len()
        invariant
            v@ == s@,
            i <= v.len(),
            out@ == remove_quotes(v@.take(i as int)),
        decreases v.len() - i,
    {
        let c = v[i];
        proof {
            reveal_with_fuel(Seq::filter, 1);
            assert(v@.take(i + 1).drop_last() =~= v@.take(i as int));
        }
        if c != '"' {
            out.push(c);
        }
        i = i + 1;
    }
    assert(v@.take(v.len() as int) =~= v@);
    from_chars(&out)
}

/// The values of the first enabled option named `key`.
fn lookup_opt<'a>(opts: &'a Vec<(String, Vec<String>)>, key: &str) -> (r: Option<&'a Vec<String>>)
    ensures
        match opt_lookup(opts_view(opts@), key@) {
            Some(vs) => (r matches Some(v) && v@.map_values(|s: String| s@) == vs),
            None => r is None,
        },
{
    let ghost ov = opts_view(opts@);
    let mut i: usize = 0;
    assert(ov.subrange(0, ov.len() as int) =~= ov);
    while i < opts.len()
        invariant
            i <= opts.len(),
            ov == opts_view(opts@),
            opt_lookup(ov, key@) == opt_lookup(ov.subrange(i as int, ov.len() as int), key@),
        decreases opts.len() - i,
    {
        let ghost rest = ov.subrange(i as int, ov.len() as int);
        assert(rest[0] == ov[i as int]);
        assert(rest.drop_first() =~= ov.subrange(i + 1, ov.len() as int));
        if str_eq(opts[i].0.as_str(), key) {
            return Some(&opts[i].1);
        }
        i = i + 1;
    }
    None
}

/// Whether `values` holds `value`.
fn contains_value(values: &Vec<String>, value: &str) -> (r: bool)
    ensures
        r == values@.map_values(|s: String| s@).contains(value@),
{
    let ghost vv = values@.map_values(|s: String| s@);
    let mut i: usize = 0;
    while i < values.len()
        invariant
            i <= values.len(),
            vv == values@.map_values(|s: String| s@),
            forall|j: int| 0 <= j < i ==> vv[j] != value@,
        decreases values.len() - i,
    {
        if str_eq(values[i].as_str(), value) {
            assert(vv[i as int] == value@);
            return true;
        }
        i = i + 1;
    }
    false
}

impl CfgPred {
    /// The predicate read from the start of the tokens of a `cfg` attribute, or
    /// `Invalid` if there are none.
    pub fn parse(tokens: &Vec<CfgToken>) -> (r: CfgPred)
        ensures
            r@ == pred_at(token_views(tokens@), 0),
    {
        match parse_pred(tokens, 0) {
            (Some(p), _) => p,
            (None, _) => CfgPred::Invalid,
        }
    }

    /// Whether the predicate holds when the options `enabled_opts` are set: a
    /// name when it is a key, a pair when its value is among its key's values.
    pub fn is_enabled(&self, enabled_opts: &Vec<(String, Vec<String>)>) -> (r: bool)
        ensures
            r == pred_enabled(self@, opts_view(enabled_opts@)),
        decreases self,
    {
        match self {
            CfgPred::Invalid => false,
            CfgPred::Option(opt) => match opt {
                CfgOpt::Name(name) => lookup_opt(enabled_opts, name.as_str()).is_some(),
                CfgOpt::Pair { key, value } => {
                    match lookup_opt(enabled_opts, key.as_str()) {
                        Some(values) => contains_value(values, value.as_str()),
                        None => false,
                    }
                },
            },
            CfgPred::All(preds) => {
                let ghost pv = pred_views(preds@);
                proof {
                    lemma_pred_views(preds@);
                    assert(pv.take(0) =~= Seq::<CfgPredView>::empty());
                }
                let mut i: usize = 0;
                while i < preds.len()
                    invariant
                        i <= preds.len(),
                        pv == pred_views(preds@),
                        *self == CfgPred::All(*preds),
                        pv.len() == preds.len(),
                        forall|j: int| 0 <= j < preds.len() ==> #[trigger] pv[j] == pred_view(preds@[j]),
                        all_enabled(pv.take(i as int), opts_view(enabled_opts@)),
                    decreases preds.len() - i,
                {
                    proof {
                        assert(decreases_to!(*self => (*self)->All_0));
                        assert(decreases_to!(*preds => preds@));
                        assert(decreases_to!(preds@ => preds@[i as int]));
                    }
                    let b = preds[i].is_enabled(enabled_opts);
                    proof {
                        assert(pv.take(i + 1).drop_last() =~= pv.take(i as int));
                        assert(pv.take(i + 1).last() == pv[i as int]);
                    }
                    if !b {
                        proof {
                            lemma_all_enabled_prefix(pv, i + 1, opts_view(enabled_opts@));
                        }
                        return false;
                    }
                    i = i + 1;
                }
                assert(pv.take(i as int) =~= pv);
                true
            },
            CfgPred::Any(preds) => {
                let ghost pv = pred_views(preds@);
                proof {
                    lemma_pred_views(preds@);
                    assert(pv.take(0) =~= Seq::<CfgPredView>::empty());
                }
                let mut i: usize = 0;
                while i < preds.len()
                    invariant
                        i <= preds.len(),
                        pv == pred_views(preds@),
                        *self == CfgPred::Any(*preds),
                        pv.len() == preds.len(),
                        forall|j: int| 0 <= j < preds.len() ==> #[trigger] pv[j] == pred_view(preds@[j]),
                        !any_enabled(pv.take(i as int), opts_view(enabled_opts@)),
                    decreases preds.len() - i,
                {
                    proof {
                        assert(decreases_to!(*self => (*self)->Any_0));
                        assert(decreases_to!(*preds => preds@));
                        assert(decreases_to!(preds@ => preds@[i as int]));
                    }
                    let b = preds[i].is_enabled(enabled_opts);
                    proof {
                        assert(pv.take(i + 1).drop_last() =~= pv.take(i as int));
                        assert(pv.take(i + 1).last() == pv[i as int]);
                    }
                    if b {
                        proof {
                            lemma_any_enabled_prefix(pv, i + 1, opts_view(enabled_opts@));
                        }
                        return true;
                    }
                    i = i + 1;
                }
                assert(pv.take(i as int) =~= pv);
                false
            },
            CfgPred::Not(pred) => !pred.is_enabled(enabled_opts),
        }
    }
}

proof fn lemma_all_enabled_prefix(ps: Seq<CfgPredView>, k: int, opts: Seq<(Seq<char>, Seq<Seq<char>>)>)
    requires
        0 <= k <= ps.len(),
        !all_enabled(ps.take(k), opts),
    ensures
        !all_enabled(ps, opts),
    decreases ps.len(),
{
    if k < ps.len() {
        assert(ps.drop_last().take(k) =~= ps.take(k));
        lemma_all_enabled_prefix(ps.drop_last(), k, opts);
    } else {
        assert(ps.take(k) =~= ps);
    }
}

proof fn lemma_any_enabled_prefix(ps: Seq<CfgPredView>, k: int, opts: Seq<(Seq<char>, Seq<Seq<char>>)>)
    requires
        0 <= k <= ps.len(),
        any_enabled(ps.take(k), opts),
    ensures
        any_enabled(ps, opts),
    decreases ps.len(),
{
    if k < ps.len() {
        assert(ps.drop_last().take(k) =~= ps.take(k));
        lemma_any_enabled_prefix(ps.drop_last(), k, opts);
    } else {
        assert(ps.take(k) =~= ps);
    }
}

/// Reads the predicate that starts at token `p`: the predicate (none if `p` is
/// past the tokens) and the position after it.
fn parse_pred(ts: &Vec<CfgToken>, p: usize) -> (r: (Option<CfgPred>, usize))
    ensures
        p >= ts.len() ==> r.0 is None,
        p < ts.len() ==> (r.0 matches Some(q) && q@ == pred_at(token_views(ts@), p as nat)),
        r.1 == next_pos(token_views(ts@), p as nat),
    decreases ts, 0nat,
{
    let n = ts.len();
    let ghost tv = token_views(ts@);
    proof {
        lemma_token_views(ts@);
    }
    if p >= n {
        return (None, p);
    }
    proof {
        assert(tv[p as int] == token_view(ts@[p as int]));
        if p + 1 < n {
            assert(tv[p as int + 1] == token_view(ts@[p as int + 1]));
        }
        if p + 2 < n {
            assert(tv[p as int + 2] == token_view(ts@[p as int + 2]));
        }
    }
    match &ts[p] {
        CfgToken::Ident(id) => {
            let eq_next = p + 1 < n && match &ts[p + 1] {
                CfgToken::Punct(c) => *c == '=',
                _ => false,
            };
            if eq_next {
                if p + 2 < n {
                    match &ts[p + 2] {
                        CfgToken::Literal(lit) => {
                            let value = remove_quotes_exec(lit.as_str());
                            let pos = if p + 3 < n {
                                p + 4
                            } else {
                                p + 3
                            };
                            let opt = CfgOpt::Pair { key: id.clone(), value };
                            return (Some(CfgPred::from(opt)), pos);
                        },
                        _ => {
                            return (Some(CfgPred::Invalid), p + 3);
                        },
                    }
                } else {
                    return (Some(CfgPred::Invalid), n);
                }
            }
            if p + 1 < n {
                match &ts[p + 1] {
                    CfgToken::Group(g) => {
                        let mut preds = parse_group(g);
                        let ghost ps = pred_views(preds@);
                        assert(tv[p as int + 1] == CfgTokenView::Group(token_views(g@)));
                        proof {
                            lemma_pred_views(preds@);
                            reveal_strlit("all");
                            reveal_strlit("any");
                            reveal_strlit("not");
                        }
                        assert(tv[p as int] == CfgTokenView::Ident(id@));
                        assert("all"@ == seq!['a', 'l', 'l']);
                        assert("any"@ == seq!['a', 'n', 'y']);
                        assert("not"@ == seq!['n', 'o', 't']);
                        let pred = if str_eq(id.as_str(), "all") {
                            CfgPred::All(preds)
                        } else if str_eq(id.as_str(), "any") {
                            CfgPred::Any(preds)
                        } else if str_eq(id.as_str(), "not") {
                            let last = match preds.pop() {
                                Some(x) => x,
                                None => CfgPred::Invalid,
                            };
                            assert(ps.len() > 0 ==> last@ == ps.last());
                            assert(ps.len() == 0 ==> last@ == CfgPredView::Invalid);
                            let r = CfgPred::Not(Box::new(last));
                            assert(r@ == CfgPredView::Not(
                                Box::new(
                                    if ps.len() == 0 {
                                        CfgPredView::Invalid
                                    } else {
                                        ps.last()
                                    },
                                ),
                            ));
                            r
                        } else {
                            CfgPred::Invalid
                        };
                        let pos = if p + 2 < n {
                            p + 3
                        } else {
                            p + 2
                        };
                        proof {
                            let gv = token_views(g@);
                            assert(ps == preds_from(gv, 0));
                            assert(tv[p as int + 1] != CfgTokenView::Punct('='));
                            assert(tv[p as int + 1]->Group_0 == gv);
                            if id@ == seq!['a', 'l', 'l'] {
                                assert(pred_at(tv, p as nat) == CfgPredView::All(ps));
                                assert(pred@ == CfgPredView::All(ps));
                            } else if id@ == seq!['a', 'n', 'y'] {
                                assert(pred_at(tv, p as nat) == CfgPredView::Any(ps));
                                assert(pred@ == CfgPredView::Any(ps));
                            } else if id@ == seq!['n', 'o', 't'] {
                                assert(pred@ == pred_at(tv, p as nat));
                            } else {
                                assert(pred@ == pred_at(tv, p as nat));
                            }
                        }
                        return (Some(pred), pos);
                    },
                    _ => {},
                }
            }
            let pos = if p + 1 < n {
                p + 2
            } else {
                p + 1
            };
            (Some(CfgPred::from(CfgOpt::Name(id.clone()))), pos)
        },
        _ => (Some(CfgPred::Invalid), p + 1),
    }
}

/// Reads predicates one after the other to the end of the tokens of a group.
fn parse_group(g: &Vec<CfgToken>) -> (r: Vec<CfgPred>)
    ensures
        pred_views(r@) == preds_from(token_views(g@), 0),
    decreases g, 1nat,
{
    let ghost gv = token_views(g@);
    let mut res: Vec<CfgPred> = Vec::new();
    let mut pos: usize = 0;
    proof {
        lemma_token_views(g@);
        assert(pred_views(res@) =~= Seq::<CfgPredView>::empty());
        assert(pred_views(res@) + preds_from(gv, 0) =~= preds_from(gv, 0));
    }
    while pos < g.len()
        invariant
            pos <= g.len(),
            gv == token_views(g@),
            gv.len() == g.len(),
            pred_views(res@) + preds_from(gv, pos as nat) == preds_from(gv, 0),
        decreases g.len() - pos,
    {
        let (q, np) = parse_pred(g, pos);
        let ghost before = res@;
        match q {
            Some(x) => {
                res.push(x);
                proof {
                    assert(res@.drop_last() =~= before);
                    assert(pred_views(res@) == pred_views(before).push(pred_at(gv, pos as nat)));
                    assert(preds_from(gv, pos as nat) == seq![pred_at(gv, pos as nat)] + preds_from(gv, np as nat));
                    assert(pred_views(res@) + preds_from(gv, np as nat) =~= pred_views(before) + preds_from(gv, pos as nat));
                }
            },
            None => {},
        }
        pos = np;
    }
    assert(preds_from(gv, pos as nat) =~= Seq::<CfgPredView>::empty());
    assert(pred_views(res@) + preds_from(gv, pos as nat) =~= pred_views(res@));
    res
}


/// An attribute on an item, as far as the decision to skip the item reads it:
/// the segments of its path, and the tokens of its argument list when it is
/// written as a list (`#[name(..)]`).
pub struct CfgAttribute {
    pub path: Vec<String>,
    pub list: Option<Vec<CfgToken>>,
}

/// Whether the code under `#[cfg(tokens)]` is left out of a scan that runs
/// with the options `opts` set.
pub open spec fn cfg_skips(ts: Seq<CfgTokenView>, opts: Seq<(Seq<char>, Seq<Seq<char>>)>) -> bool {
    !pred_enabled(pred_at(ts, 0), opts)
}

/// Whether the attribute is a `cfg` list whose predicate does not hold.
pub open spec fn attr_skips(a: CfgAttribute, opts: Seq<(Seq<char>, Seq<Seq<char>>)>) -> bool {
    &&& a.path@.len() == 1
    &&& a.path@[0]@ == "cfg"@
    &&& a.list matches Some(ts) && cfg_skips(token_views(ts@), opts)
}

/// Whether the code under `#[cfg(tokens)]` is skipped when `enabled_opts` are
/// set.
pub fn skip_cfg(tokens: &Vec<CfgToken>, enabled_opts: &Vec<(String, Vec<String>)>) -> (r: bool)
    ensures
        r == cfg_skips(token_views(tokens@), opts_view(enabled_opts@)),
{
    let pred = CfgPred::parse(tokens);
    !pred.is_enabled(enabled_opts)
}

/// Whether the attribute implies that the code it stands on is skipped: it is
/// `#[cfg(..)]` and its predicate does not hold.
pub fn skip_attr(attr: &CfgAttribute, enabled_opts: &Vec<(String, Vec<String>)>) -> (r: bool)
    ensures
        r == attr_skips(*attr, opts_view(enabled_opts@)),
{
    if attr.path.len() != 1 || !str_eq(attr.path[0].as_str(), "cfg") {
        return false;
    }
    match &attr.list {
        Some(tokens) => skip_cfg(tokens, enabled_opts),
        None => false,
    }
}

/// Whether any of the attributes implies that the code is skipped.
pub fn skip_attrs(attrs: &Vec<CfgAttribute>, enabled_opts: &Vec<(String, Vec<String>)>) -> (r: bool)
    ensures
        r == exists|i: int| 0 <= i < attrs@.len() && #[trigger] attr_skips(attrs@[i], opts_view(enabled_opts@)),
{
    let mut i: usize = 0;
    while i < attrs.len()
        invariant
            i <= attrs.len(),
            forall|j: int| 0 <= j < i ==> !#[trigger] attr_skips(attrs@[j], opts_view(enabled_opts@)),
        decreases attrs.len() - i,
    {
        if skip_attr(&attrs[i], enabled_opts) {
            return true;
        }
        i = i + 1;
    }
    false
}

} // verus!
