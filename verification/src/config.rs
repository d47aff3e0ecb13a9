//! Configuration model and the parameter expander.
//!
//! An experiment's parameter space is a list of `(name, values)` entries;
//! expansion produces the Cartesian product of the per-name value lists as a
//! list of concrete bindings, keys in entry order, later entries varying
//! fastest, as a printed cross product would read.

use vstd::prelude::*;
use vstd::string::StringExecFns;

verus! {

/// One concrete assignment of a textual value to every parameter name.
pub type Binding = Vec<(String, String)>;

/// A parameter space before expansion: parameter names, each with its
/// allowed value or values.
pub type ParamSet = Vec<(String, ParamValue)>;

/// A scalar configuration value.
#[derive(Debug, Clone, PartialEq, Eq)]
pub enum ParamEntry {
    Str(String),
    Integer(i64),
    Boolean(bool),
}

/// A single scalar or an ordered list of scalars for one parameter name.
#[derive(Debug, Clone, PartialEq, Eq)]
pub enum ParamValue {
    Value(ParamEntry),
    List(Vec<ParamEntry>),
}

/// The decimal digit characters.
pub open spec fn spec_digit(d: int) -> char {
    if d == 0 {
        '0'
    } else if d == 1 {
        '1'
    } else if d == 2 {
        '2'
    } else if d == 3 {
        '3'
    } else if d == 4 {
        '4'
    } else if d == 5 {
        '5'
    } else if d == 6 {
        '6'
    } else if d == 7 {
        '7'
    } else if d == 8 {
        '8'
    } else {
        '9'
    }
}

/// Decimal rendering of a nonnegative integer, most significant digit first.
pub open spec fn spec_dec(n: int) -> Seq<char>
    decreases n,
{
    if n < 10 {
        seq![spec_digit(n)]
    } else {
        spec_dec(n / 10).push(spec_digit(n % 10))
    }
}

/// Decimal rendering of an integer, with a leading minus sign if negative.
pub open spec fn spec_int_text(i: int) -> Seq<char> {
    if i >= 0 {
        spec_dec(i)
    } else {
        seq!['-'] + spec_dec(-i)
    }
}

/// The textual form a scalar takes inside a binding: strings unchanged,
/// integers in decimal, booleans as the literals "true" and "false".
pub open spec fn spec_entry_text(e: ParamEntry) -> Seq<char> {
    match e {
        ParamEntry::Str(s) => s@,
        ParamEntry::Integer(i) => spec_int_text(i as int),
        ParamEntry::Boolean(b) => if b {
            "true"@
        } else {
            "false"@
        },
    }
}

/// The ordered value texts a parameter value contributes to the expansion:
/// a single scalar contributes one, a list contributes one per element.
pub open spec fn spec_value_texts(v: ParamValue) -> Seq<Seq<char>> {
    match v {
        ParamValue::Value(e) => seq![spec_entry_text(e)],
        ParamValue::List(es) => es@.map_values(|e: ParamEntry| spec_entry_text(e)),
    }
}

fn digit_str(d: u64) -> (r: &'static str)
    requires
        d < 10,
    ensures
        r@ == seq![spec_digit(d as int)],
{
    match d {
        0 => {
            proof {
                reveal_strlit("0");
            }
            "0"
        },
        1 => {
            proof {
                reveal_strlit("1");
            }
            "1"
        },
        2 => {
            proof {
                reveal_strlit("2");
            }
            "2"
        },
        3 => {
            proof {
                reveal_strlit("3");
            }
            "3"
        },
        4 => {
            proof {
                reveal_strlit("4");
            }
            "4"
        },
        5 => {
            proof {
                reveal_strlit("5");
            }
            "5"
        },
        6 => {
            proof {
                reveal_strlit("6");
            }
            "6"
        },
        7 => {
            proof {
                reveal_strlit("7");
            }
            "7"
        },
        8 => {
            proof {
                reveal_strlit("8");
            }
            "8"
        },
        _ => {
            proof {
                reveal_strlit("9");
            }
            "9"
        },
    }
}

fn push_dec(s: &mut String, n: u64)
    ensures
        final(s)@ == old(s)@ + spec_dec(n as int),
    decreases n,
{
    if n < 10 {
        s.append(digit_str(n));
    } else {
        push_dec(s, n / 10);
        s.append(digit_str(n % 10));
        assert(final(s)@ =~= old(s)@ + spec_dec(n as int));
    }
}

/// Decimal rendering of an unsigned integer.
pub fn u64_text(n: u64) -> (r: String)
    ensures
        r@ == spec_dec(n as int),
{
    let mut s = String::new();
    push_dec(&mut s, n);
    assert(s@ =~= spec_dec(n as int));
    s
}

/// Decimal rendering of a signed integer.
pub fn i64_text(i: i64) -> (r: String)
    ensures
        r@ == spec_int_text(i as int),
{
    if i >= 0 {
        u64_text(i as u64)
    } else {
        let mag: u64 = (-(i as i128)) as u64;
        let mut s = "-".to_owned();
        push_dec(&mut s, mag);
        proof {
            reveal_strlit("-");
            assert(s@ =~= spec_int_text(i as int));
        }
        s
    }
}

impl ParamEntry {
    /// The textual form of this scalar.
    pub fn to_text(&self) -> (r: String)
        ensures
            r@ == spec_entry_text(*self),
    {
        match self {
            ParamEntry::Str(s) => s.clone(),
            ParamEntry::Integer(i) => i64_text(*i),
            ParamEntry::Boolean(b) => if *b {
                "true".to_owned()
            } else {
                "false".to_owned()
            },
        }
    }
}

impl ParamValue {
    /// The ordered list of value texts this parameter value stands for.
    pub fn normalized_texts(&self) -> (r: Vec<String>)
        ensures
            r.deep_view() == spec_value_texts(*self),
    {
        match self {
            ParamValue::Value(e) => {
                let mut v: Vec<String> = Vec::new();
                v.push(e.to_text());
                assert(v.deep_view() =~= spec_value_texts(*self));
                v
            },
            ParamValue::List(es) => {
                let mut v: Vec<String> = Vec::new();
                let n = es.len();
                for i in 0..n
                    invariant
                        n == es.len(),
                        v@.len() == i,
                        forall|j: int| 0 <= j < i ==> v.deep_view()[j] == spec_entry_text(es@[j]),
                {
                    let ghost prev_dv = v.deep_view();
                    let t = es[i].to_text();
                    v.push(t);
                    proof {
                        assert(v.deep_view() =~= prev_dv.push(spec_entry_text(es@[i as int])));
                    }
                }
                assert(v.deep_view() =~= es@.map_values(|e: ParamEntry| spec_entry_text(e)));
                v
            },
        }
    }

    /// Consume this parameter value, yielding its value texts.
    pub fn into_normalized(self) -> (r: Vec<String>)
        ensures
            r.deep_view() == spec_value_texts(self),
    {
        self.normalized_texts()
    }
}

/// One partial binding extended by every value of one parameter, in value
/// order.
pub open spec fn spec_extended(
    b: Seq<(Seq<char>, Seq<char>)>,
    key: Seq<char>,
    vals: Seq<Seq<char>>,
) -> Seq<Seq<(Seq<char>, Seq<char>)>>
    decreases vals.len(),
{
    if vals.len() == 0 {
        Seq::empty()
    } else {
        seq![b.push((key, vals.first()))] + spec_extended(b, key, vals.drop_first())
    }
}

/// Every partial binding extended by every value of one parameter: outer
/// order over the existing bindings, inner order over the values.
pub open spec fn spec_row_product(
    partials: Seq<Seq<(Seq<char>, Seq<char>)>>,
    key: Seq<char>,
    vals: Seq<Seq<char>>,
) -> Seq<Seq<(Seq<char>, Seq<char>)>>
    decreases partials.len(),
{
    if partials.len() == 0 {
        Seq::empty()
    } else {
        spec_extended(partials.first(), key, vals) + spec_row_product(
            partials.drop_first(),
            key,
            vals,
        )
    }
}

/// The Cartesian product of a parameter space: the parameters are taken in
/// entry order, and a later parameter's values vary faster than an earlier
/// one's. An empty space yields the one empty binding.
pub open spec fn spec_cartesian(entries: Seq<(Seq<char>, Seq<Seq<char>>)>) -> Seq<
    Seq<(Seq<char>, Seq<char>)>,
>
    decreases entries.len(),
{
    if entries.len() == 0 {
        seq![Seq::<(Seq<char>, Seq<char>)>::empty()]
    } else {
        spec_row_product(
            spec_cartesian(entries.drop_last()),
            entries.last().0,
            entries.last().1,
        )
    }
}

/// The number of bindings a parameter space expands to: the product of the
/// per-parameter value counts.
pub open spec fn spec_combo_count(entries: Seq<(Seq<char>, Seq<Seq<char>>)>) -> nat
    decreases entries.len(),
{
    if entries.len() == 0 {
        1
    } else {
        spec_combo_count(entries.drop_last()) * entries.last().1.len()
    }
}

proof fn lemma_extended_append(
    b: Seq<(Seq<char>, Seq<char>)>,
    key: Seq<char>,
    vals: Seq<Seq<char>>,
    v: Seq<char>,
)
    ensures
        spec_extended(b, key, vals.push(v)) =~~= spec_extended(b, key, vals).push(
            b.push((key, v)),
        ),
    decreases vals.len(),
{
    if vals.len() == 0 {
        assert(vals.push(v).len() == 1);
        assert(vals.push(v).first() == v);
        assert(vals.push(v).drop_first() =~= Seq::<Seq<char>>::empty());
        assert(spec_extended(b, key, vals.push(v).drop_first()) =~~= Seq::<
            Seq<(Seq<char>, Seq<char>)>,
        >::empty());
        assert(spec_extended(b, key, vals.push(v)) =~~= seq![b.push((key, v))]);
        assert(spec_extended(b, key, vals) =~~= Seq::<Seq<(Seq<char>, Seq<char>)>>::empty());
    } else {
        assert(vals.push(v).drop_first() =~= vals.drop_first().push(v));
        lemma_extended_append(b, key, vals.drop_first(), v);
    }
}

proof fn lemma_row_product_append(
    partials: Seq<Seq<(Seq<char>, Seq<char>)>>,
    key: Seq<char>,
    vals: Seq<Seq<char>>,
    b: Seq<(Seq<char>, Seq<char>)>,
)
    ensures
        spec_row_product(partials.push(b), key, vals) =~~= spec_row_product(partials, key, vals)
            + spec_extended(b, key, vals),
    decreases partials.len(),
{
    if partials.len() == 0 {
        assert(partials.push(b).first() == b);
        assert(partials.push(b).drop_first() =~= Seq::<Seq<(Seq<char>, Seq<char>)>>::empty());
        assert(spec_row_product(partials.push(b).drop_first(), key, vals) =~~= Seq::<
            Seq<(Seq<char>, Seq<char>)>,
        >::empty());
        assert(spec_row_product(partials.push(b), key, vals) =~~= spec_extended(b, key, vals));
        assert(spec_row_product(partials, key, vals) =~~= Seq::<
            Seq<(Seq<char>, Seq<char>)>,
        >::empty());
    } else {
        assert(partials.push(b).first() == partials.first());
        assert(partials.push(b).drop_first() =~= partials.drop_first().push(b));
        lemma_row_product_append(partials.drop_first(), key, vals, b);
        assert(spec_row_product(partials.push(b), key, vals) =~~= spec_extended(
            partials.first(),
            key,
            vals,
        ) + spec_row_product(partials.drop_first().push(b), key, vals));
    }
}

pub(crate) fn clone_pairs(b: &Vec<(String, String)>) -> (r: Vec<(String, String)>)
    ensures
        r.deep_view() == b.deep_view(),
{
    let mut r: Vec<(String, String)> = Vec::new();
    let n = b.len();
    for i in 0..n
        invariant
            n == b.len(),
            r@.len() == i,
            forall|j: int| 0 <= j < i ==> r.deep_view()[j] == b.deep_view()[j],
    {
        let ghost prev_dv = r.deep_view();
        r.push((b[i].0.clone(), b[i].1.clone()));
        proof {
            assert(r.deep_view() =~= prev_dv.push(b.deep_view()[i as int]));
        }
    }
    assert(r.deep_view() =~= b.deep_view());
    r
}

/// Expand a list of parameters, each with its ordered value texts, into the
/// ordered list of all bindings of their Cartesian product.
pub fn cross(map: Vec<(String, Vec<String>)>) -> (result: Vec<Binding>)
    ensures
        result.deep_view() == spec_cartesian(map.deep_view()),
{
    let mut result: Vec<Binding> = Vec::new();
    result.push(Vec::new());
    proof {
        assert(map.deep_view().take(0) =~= Seq::<(Seq<char>, Seq<Seq<char>>)>::empty());
        assert(result.deep_view() =~~= seq![Seq::<(Seq<char>, Seq<char>)>::empty()]);
    }
    let n = map.len();
    for i in 0..n
        invariant
            n == map.len(),
            result.deep_view() == spec_cartesian(map.deep_view().take(i as int)),
    {
        let ghost k = map.deep_view()[i as int].0;
        let ghost vs = map.deep_view()[i as int].1;
        let mut next: Vec<Binding> = Vec::new();
        let m = result.len();
        let vlen = map[i].1.len();
        proof {
            assert(vs.len() == vlen);
        }
        for bi in 0..m
            invariant
                m == result.len(),
                n == map.len(),
                i < n,
                vlen == map@[i as int].1@.len(),
                k == map.deep_view()[i as int].0,
                vs == map.deep_view()[i as int].1,
                next.deep_view() == spec_row_product(result.deep_view().take(bi as int), k, vs),
        {
            for vi in 0..vlen
                invariant
                    m == result.len(),
                    n == map.len(),
                    i < n,
                    bi < m,
                    vlen == map@[i as int].1@.len(),
                    k == map.deep_view()[i as int].0,
                    vs == map.deep_view()[i as int].1,
                    next.deep_view() == spec_row_product(result.deep_view().take(bi as int), k, vs)
                        + spec_extended(result.deep_view()[bi as int], k, vs.take(vi as int)),
            {
                let mut b = clone_pairs(&result[bi]);
                let ghost b_dv = b.deep_view();
                let ghost next_prev = next.deep_view();
                b.push((map[i].0.clone(), map[i].1[vi].clone()));
                proof {
                    assert(b.deep_view() =~= b_dv.push((k, vs[vi as int])));
                }
                next.push(b);
                proof {
                    assert(next.deep_view() =~= next_prev.push(
                        result.deep_view()[bi as int].push((k, vs[vi as int])),
                    ));
                    assert(vs.take(vi as int).push(vs[vi as int]) =~= vs.take(vi + 1));
                    lemma_extended_append(
                        result.deep_view()[bi as int],
                        k,
                        vs.take(vi as int),
                        vs[vi as int],
                    );
                }
            }
            proof {
                assert(vs.take(vlen as int) =~= vs);
                assert(result.deep_view().take(bi as int).push(result.deep_view()[bi as int])
                    =~= result.deep_view().take(bi + 1));
                lemma_row_product_append(
                    result.deep_view().take(bi as int),
                    k,
                    vs,
                    result.deep_view()[bi as int],
                );
            }
        }
        proof {
            assert(result.deep_view().take(m as int) =~= result.deep_view());
        }
        result = next;
        proof {
            assert(map.deep_view().take(i + 1).drop_last() =~= map.deep_view().take(i as int));
        }
    }
    proof {
        assert(map.deep_view().take(n as int) =~= map.deep_view());
    }
    result
}


/// The view of a parameter space: each entry's name with its ordered value
/// texts.
pub open spec fn spec_param_space(entries: Seq<(String, ParamValue)>) -> Seq<
    (Seq<char>, Seq<Seq<char>>),
> {
    entries.map_values(|p: (String, ParamValue)| (p.0@, spec_value_texts(p.1)))
}

impl ParamValue {
    /// Expand a parameter space into the ordered list of all bindings of its
    /// Cartesian product, every scalar normalized to its textual form.
    pub fn flatten(map: ParamSet) -> (result: Vec<Binding>)
        ensures
            result.deep_view() == spec_cartesian(spec_param_space(map@)),
    {
        param_bindings(&map)
    }
}


proof fn lemma_extended_props(
    b: Seq<(Seq<char>, Seq<char>)>,
    key: Seq<char>,
    vals: Seq<Seq<char>>,
)
    ensures
        spec_extended(b, key, vals).len() == vals.len(),
        forall|vi: int|
            0 <= vi < vals.len() ==> spec_extended(b, key, vals)[vi] == b.push(
                (key, vals[vi]),
            ),
    decreases vals.len(),
{
    if vals.len() == 0 {
    } else {
        lemma_extended_props(b, key, vals.drop_first());
        assert forall|vi: int| 0 <= vi < vals.len() implies spec_extended(b, key, vals)[vi]
            == b.push((key, vals[vi])) by {
            if vi > 0 {
                assert(spec_extended(b, key, vals)[vi] == spec_extended(
                    b,
                    key,
                    vals.drop_first(),
                )[vi - 1]);
            }
        }
    }
}

proof fn lemma_row_product_props(
    partials: Seq<Seq<(Seq<char>, Seq<char>)>>,
    key: Seq<char>,
    vals: Seq<Seq<char>>,
)
    ensures
        spec_row_product(partials, key, vals).len() == partials.len() * vals.len(),
        forall|pi: int, vi: int|
            0 <= pi < partials.len() && 0 <= vi < vals.len() ==> spec_row_product(
                partials,
                key,
                vals,
            )[pi * vals.len() + vi] == partials[pi].push((key, vals[vi])),
    decreases partials.len(),
{
    let v = vals.len() as int;
    let p = partials.len() as int;
    if partials.len() == 0 {
        assert(0 * v == 0) by (nonlinear_arith);
    } else {
        lemma_extended_props(partials.first(), key, vals);
        lemma_row_product_props(partials.drop_first(), key, vals);
        assert(v + (p - 1) * v == p * v) by (nonlinear_arith);
        assert forall|pi: int, vi: int|
            0 <= pi < partials.len() && 0 <= vi < vals.len() implies spec_row_product(
            partials,
            key,
            vals,
        )[pi * v + vi] == partials[pi].push((key, vals[vi])) by {
            if pi == 0 {
                assert(0 * v + vi == vi) by (nonlinear_arith);
                assert(spec_row_product(partials, key, vals)[vi] == spec_extended(
                    partials.first(),
                    key,
                    vals,
                )[vi]);
            } else {
                assert(v <= pi * v + vi && pi * v + vi - v == (pi - 1) * v + vi && 0 <= (pi - 1) * v
                    + vi < (p - 1) * v) by (nonlinear_arith)
                    requires
                        1 <= pi < p,
                        0 <= vi < v,
                ;
                assert(spec_row_product(partials, key, vals)[pi * v + vi] == spec_row_product(
                    partials.drop_first(),
                    key,
                    vals,
                )[(pi - 1) * v + vi]);
                assert(partials.drop_first()[pi - 1] == partials[pi]);
            }
        }
    }
}

/// The expander yields exactly the product of the per-parameter value counts
/// many bindings.
pub proof fn lemma_cartesian_count(entries: Seq<(Seq<char>, Seq<Seq<char>>)>)
    ensures
        spec_cartesian(entries).len() == spec_combo_count(entries),
    decreases entries.len(),
{
    if entries.len() == 0 {
    } else {
        lemma_cartesian_count(entries.drop_last());
        lemma_row_product_props(
            spec_cartesian(entries.drop_last()),
            entries.last().0,
            entries.last().1,
        );
    }
}

/// Every produced binding assigns every parameter name, in entry order, and
/// assigns it one of that parameter's own values: no name is dropped, none
/// is duplicated, none is invented.
pub proof fn lemma_cartesian_shape(entries: Seq<(Seq<char>, Seq<Seq<char>>)>)
    ensures
        forall|bi: int|
            0 <= bi < spec_cartesian(entries).len() ==> (#[trigger] spec_cartesian(
                entries,
            )[bi]).len() == entries.len(),
        forall|bi: int, j: int|
            0 <= bi < spec_cartesian(entries).len() && 0 <= j < entries.len() ==> (
            #[trigger] spec_cartesian(entries)[bi][j]).0 == entries[j].0 && entries[j].1.contains(
                spec_cartesian(entries)[bi][j].1,
            ),
    decreases entries.len(),
{
    if entries.len() == 0 {
    } else {
        let prev = spec_cartesian(entries.drop_last());
        let key = entries.last().0;
        let vals = entries.last().1;
        let v = vals.len() as int;
        let p = prev.len() as int;
        lemma_cartesian_shape(entries.drop_last());
        lemma_row_product_props(prev, key, vals);
        assert forall|bi: int|
            0 <= bi < spec_cartesian(entries).len() implies (#[trigger] spec_cartesian(
            entries,
        )[bi]).len() == entries.len() by {
            vstd::arithmetic::div_mod::lemma_fundamental_div_mod(bi, v);
            vstd::arithmetic::div_mod::lemma_mod_bound(bi, v);
            let pi = bi / v;
            let vi = bi % v;
            assert(0 <= pi < p) by (nonlinear_arith)
                requires
                    bi == v * pi + vi,
                    0 <= vi < v,
                    0 <= bi < p * v,
            ;
            assert(spec_cartesian(entries)[bi] == prev[pi].push((key, vals[vi])));
        }
        assert forall|bi: int, j: int|
            0 <= bi < spec_cartesian(entries).len() && 0 <= j < entries.len() implies (
        #[trigger] spec_cartesian(entries)[bi][j]).0 == entries[j].0 && entries[j].1.contains(
            spec_cartesian(entries)[bi][j].1,
        ) by {
            vstd::arithmetic::div_mod::lemma_fundamental_div_mod(bi, v);
            vstd::arithmetic::div_mod::lemma_mod_bound(bi, v);
            let pi = bi / v;
            let vi = bi % v;
            assert(0 <= pi < p) by (nonlinear_arith)
                requires
                    bi == v * pi + vi,
                    0 <= vi < v,
                    0 <= bi < p * v,
            ;
            assert(spec_cartesian(entries)[bi] == prev[pi].push((key, vals[vi])));
            assert(entries.drop_last().len() == entries.len() - 1);
            if j < entries.len() - 1 {
                assert(spec_cartesian(entries)[bi][j] == prev[pi][j]);
                assert(entries.drop_last()[j] == entries[j]);
            } else {
                assert(spec_cartesian(entries)[bi][j] == (key, vals[vi]));
            }
        }
    }
}

/// Completeness of the expander: every way of choosing one value text per
/// parameter occurs among the produced bindings.
pub proof fn lemma_cartesian_complete(
    entries: Seq<(Seq<char>, Seq<Seq<char>>)>,
    choice: Seq<Seq<char>>,
)
    requires
        choice.len() == entries.len(),
        forall|j: int| 0 <= j < entries.len() ==> entries[j].1.contains(choice[j]),
    ensures
        spec_cartesian(entries).contains(
            Seq::new(entries.len(), |j: int| (entries[j].0, choice[j])),
        ),
    decreases entries.len(),
{
    let target = Seq::new(entries.len(), |j: int| (entries[j].0, choice[j]));
    if entries.len() == 0 {
        assert(target =~= Seq::<(Seq<char>, Seq<char>)>::empty());
        assert(spec_cartesian(entries)[0] == target);
    } else {
        let shorter = entries.drop_last();
        let key = entries.last().0;
        let vals = entries.last().1;
        let v = vals.len() as int;
        let prev = spec_cartesian(shorter);
        assert(forall|j: int| 0 <= j < shorter.len() ==> shorter[j] == entries[j]);
        lemma_cartesian_complete(shorter, choice.drop_last());
        let prefix = Seq::new(shorter.len(), |j: int| (shorter[j].0, choice.drop_last()[j]));
        let pi = choose|pi: int| 0 <= pi < prev.len() && prev[pi] == prefix;
        assert(entries[entries.len() - 1].1.contains(choice[entries.len() - 1]));
        let vi = choose|vi: int| 0 <= vi < vals.len() && vals[vi] == choice[entries.len() - 1];
        lemma_row_product_props(prev, key, vals);
        lemma_cartesian_count(shorter);
        assert(spec_cartesian(entries)[pi * v + vi] == prev[pi].push((key, vals[vi])));
        assert(prefix.push((key, vals[vi])) =~= target);
        assert(0 <= pi * v + vi < spec_cartesian(entries).len()) by (nonlinear_arith)
            requires
                0 <= pi < prev.len(),
                0 <= vi < v,
                spec_cartesian(entries).len() == prev.len() * v,
        ;
    }
}

/// No binding is produced twice, as long as no parameter lists the same
/// value text twice.
pub proof fn lemma_cartesian_distinct(entries: Seq<(Seq<char>, Seq<Seq<char>>)>)
    requires
        forall|j: int, a: int, b: int|
            0 <= j < entries.len() && 0 <= a < b < entries[j].1.len() ==> entries[j].1[a]
                != entries[j].1[b],
    ensures
        forall|p: int, q: int|
            0 <= p < q < spec_cartesian(entries).len() ==> spec_cartesian(entries)[p]
                != spec_cartesian(entries)[q],
    decreases entries.len(),
{
    if entries.len() == 0 {
    } else {
        let shorter = entries.drop_last();
        let key = entries.last().0;
        let vals = entries.last().1;
        let v = vals.len() as int;
        let prev = spec_cartesian(shorter);
        let pl = prev.len() as int;
        assert(forall|j: int| 0 <= j < shorter.len() ==> shorter[j] == entries[j]);
        lemma_cartesian_distinct(shorter);
        lemma_row_product_props(prev, key, vals);
        assert forall|p: int, q: int|
            0 <= p < q < spec_cartesian(entries).len() implies spec_cartesian(entries)[p]
            != spec_cartesian(entries)[q] by {
            vstd::arithmetic::div_mod::lemma_fundamental_div_mod(p, v);
            vstd::arithmetic::div_mod::lemma_fundamental_div_mod(q, v);
            vstd::arithmetic::div_mod::lemma_mod_bound(p, v);
            vstd::arithmetic::div_mod::lemma_mod_bound(q, v);
            let pi = p / v;
            let vi = p % v;
            let qi = q / v;
            let wi = q % v;
            assert(0 <= pi < pl && 0 <= qi < pl) by (nonlinear_arith)
                requires
                    p == v * pi + vi,
                    q == v * qi + wi,
                    0 <= vi < v,
                    0 <= wi < v,
                    0 <= p < pl * v,
                    0 <= q < pl * v,
            ;
            let b1 = prev[pi].push((key, vals[vi]));
            let b2 = prev[qi].push((key, vals[wi]));
            assert(spec_row_product(prev, key, vals)[pi * vals.len() + vi] == prev[pi].push(
                (key, vals[vi]),
            ));
            assert(spec_row_product(prev, key, vals)[qi * vals.len() + wi] == prev[qi].push(
                (key, vals[wi]),
            ));
            assert(p == v * pi + vi && q == v * qi + wi);
            assert(p == pi * vals.len() + vi && q == qi * vals.len() + wi) by (nonlinear_arith)
                requires
                    p == v * pi + vi,
                    q == v * qi + wi,
                    v == vals.len(),
            ;
            assert(spec_cartesian(entries)[p] == b1);
            assert(spec_cartesian(entries)[q] == b2);
            if b1 == b2 {
                if pi == qi {
                    assert(vi != wi) by (nonlinear_arith)
                        requires
                            p == v * pi + vi,
                            q == v * qi + wi,
                            pi == qi,
                            p != q,
                    ;
                    assert(b1.last() == b2.last());
                    assert(vals[vi] == vals[wi]);
                    assert(entries[entries.len() - 1].1 == vals);
                    assert(false);
                } else {
                    assert(b1.drop_last() =~= prev[pi]);
                    assert(b2.drop_last() =~= prev[qi]);
                    assert(prev[pi] == prev[qi]);
                    assert(false);
                }
            }
        }
    }
}

/// An empty parameter space expands to exactly one binding, the empty one.
pub proof fn lemma_cartesian_of_empty()
    ensures
        spec_cartesian(Seq::<(Seq<char>, Seq<Seq<char>>)>::empty()) =~~= seq![
            Seq::<(Seq<char>, Seq<char>)>::empty(),
        ],
{
}


/// Default number of recorded samples per trial.
pub const DEFAULT_SAMPLES: u64 = 25;

/// Default number of warmup attempts per trial.
pub const DEFAULT_WARMUP: u64 = 10;

/// One named, possibly parameterized description of an endpoint to
/// benchmark. A missing URL falls back to the shared base configuration;
/// missing sample and warmup counts fall back to the defaults.
#[derive(Debug, Clone, PartialEq, Eq)]
pub struct Experiment {
    pub url: Option<String>,
    pub headers: Option<Vec<(String, String)>>,
    pub query: Option<ParamSet>,
    pub params: Option<ParamSet>,
    pub samples: Option<u64>,
    pub warmup: Option<u64>,
}

/// Shared defaults for every experiment of a configuration.
#[derive(Debug, Clone, PartialEq, Eq)]
pub struct BaseConfig {
    pub url: Option<String>,
    pub headers: Option<Vec<(String, String)>>,
    pub warmup: Option<u64>,
}

/// A whole loaded configuration: the experiments, in order, and the
/// optional shared defaults.
#[derive(Debug, Clone, PartialEq, Eq)]
pub struct RootConfig {
    pub experiments: Vec<(String, Experiment)>,
    pub config: Option<BaseConfig>,
}

/// A fatal configuration fault, found before any trial runs: an experiment
/// that resolves to no URL at all, or to one the URL parser rejects. Each
/// variant carries the offending text: the experiment name, or the URL.
#[derive(Debug, Clone, PartialEq, Eq)]
pub enum ConfigError {
    MissingUrl(String),
    InvalidUrl(String),
}

/// Expand a borrowed parameter space: same result as `flatten`, without
/// consuming the space.
pub fn param_bindings(map: &ParamSet) -> (result: Vec<Binding>)
    ensures
        result.deep_view() == spec_cartesian(spec_param_space(map@)),
{
    let mut normalized: Vec<(String, Vec<String>)> = Vec::new();
    let n = map.len();
    for i in 0..n
        invariant
            n == map.len(),
            normalized@.len() == i,
            forall|j: int| 0 <= j < i ==> normalized.deep_view()[j] == (
                map@[j].0@,
                spec_value_texts(map@[j].1),
            ),
    {
        let ghost prev_dv = normalized.deep_view();
        let texts = map[i].1.normalized_texts();
        normalized.push((map[i].0.clone(), texts));
        proof {
            assert(normalized.deep_view() =~= prev_dv.push(
                (map@[i as int].0@, spec_value_texts(map@[i as int].1)),
            ));
        }
    }
    proof {
        assert(normalized.deep_view() =~= spec_param_space(map@));
    }
    cross(normalized)
}


/// Collapse a list of optional values: all of them present gives the values
/// in order, any absent gives nothing.
pub fn array_of_opt_to_opt_array<T>(vec: Vec<Option<T>>) -> (r: Option<Vec<T>>)
    ensures
        r is Some <==> (forall|i: int| 0 <= i < vec@.len() ==> (#[trigger] vec@[i]) is Some),
        r matches Some(v) ==> v@.len() == vec@.len() && (forall|i: int|
            0 <= i < vec@.len() ==> ((#[trigger] vec@[i]) matches Some(x) && v@[i] == x)),
{
    let total = vec.len();
    for i in 0..total
        invariant
            total == vec@.len(),
            forall|j: int| 0 <= j < i ==> (#[trigger] vec@[j]) is Some,
    {
        if vec[i].is_none() {
            return None;
        }
    }
    let ghost orig = vec@;
    let mut result: Vec<T> = Vec::new();
    let mut rest = vec;
    let mut taken: usize = 0;
    while rest.len() != 0
        invariant
            total == orig.len(),
            taken <= total,
            taken + rest@.len() == orig.len(),
            rest@ =~= orig.skip(taken as int),
            result@.len() == taken,
            forall|i: int| 0 <= i < orig.len() ==> (#[trigger] orig[i]) is Some,
            forall|i: int| 0 <= i < taken ==> ((#[trigger] orig[i]) matches Some(x) && result@[i]
                == x),
        decreases rest@.len(),
    {
        let item = rest.remove(0);
        proof {
            let pre = orig.skip(taken as int);
            assert(item == pre[0]);
            assert(pre[0] == orig[taken as int]);
            assert forall|j: int| 0 <= j < rest@.len() implies rest@[j] == orig.skip(taken + 1)[j] by {
                assert(rest@[j] == pre.remove(0)[j]);
                assert(pre.remove(0)[j] == pre[j + 1]);
                assert(pre[j + 1] == orig[taken + 1 + j]);
                assert(orig.skip(taken + 1)[j] == orig[taken + 1 + j]);
            }
            assert(rest@ =~= orig.skip(taken + 1));
        }
        match item {
            Some(value) => {
                result.push(value);
                taken = taken + 1;
            },
            None => {
                proof {
                    assert((orig[taken as int]) is Some);
                    assert(false);
                }
            },
        }
    }
    proof {
        assert(taken == orig.len());
    }
    Some(result)
}

} // verus!
