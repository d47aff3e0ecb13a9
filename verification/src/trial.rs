//! Trials: building them from a configuration, running statistics over
//! their results, and comparing trials for statistical equivalence.

use vstd::prelude::*;

use crate::config::clone_pairs;
use crate::config::param_bindings;
use crate::config::spec_cartesian;
use crate::config::spec_param_space;
use crate::config::BaseConfig;
use crate::config::Binding;
use crate::config::ConfigError;
use crate::config::Experiment;
use crate::config::RootConfig;
use crate::config::DEFAULT_SAMPLES;
use crate::config::DEFAULT_WARMUP;
use crate::distributions::spec_lookup_value;
use crate::math::isqrt;
use crate::math::spec_isqrt;

verus! {

/// One fully concrete run configuration: everything the HTTP layer needs to
/// issue its attempts, and the sample counts the statistics assume.
#[derive(Debug, Clone, PartialEq, Eq)]
pub struct Trial {
    pub name: String,
    pub url: String,
    pub headers: Vec<(String, String)>,
    pub query: Binding,
    pub params: Binding,
    pub samples: u64,
    pub warmup: u64,
}

/// The mathematical content of a trial.
#[verifier::ext_equal]
pub ghost struct TrialView {
    pub name: Seq<char>,
    pub url: Seq<char>,
    pub headers: Seq<(Seq<char>, Seq<char>)>,
    pub query: Seq<(Seq<char>, Seq<char>)>,
    pub params: Seq<(Seq<char>, Seq<char>)>,
    pub samples: u64,
    pub warmup: u64,
}

impl View for Trial {
    type V = TrialView;

    open spec fn view(&self) -> TrialView {
        TrialView {
            name: self.name@,
            url: self.url@,
            headers: self.headers.deep_view(),
            query: self.query.deep_view(),
            params: self.params.deep_view(),
            samples: self.samples,
            warmup: self.warmup,
        }
    }
}

/// The views of a list of trials.
pub open spec fn spec_trial_views(ts: Seq<Trial>) -> Seq<TrialView> {
    ts.map_values(|t: Trial| t@)
}

/// Whether the URL parser accepts a text. The result depends on the text
/// alone.
pub uninterp spec fn url_ok(s: Seq<char>) -> bool;

/// Relies on url::Url::parse, a pure parser: whether it accepts a text
/// depends on the characters alone.
#[verifier::external_body]
fn url_is_valid(s: &str) -> (r: bool)
    ensures
        r == url_ok(s@),
{
    url::Url::parse(s).is_ok()
}

/// The URL an experiment resolves to: its own, else the shared one.
pub open spec fn spec_resolved_url(e: Experiment, base: Option<BaseConfig>) -> Option<Seq<char>> {
    match e.url {
        Some(u) => Some(u@),
        None => match base {
            Some(b) => match b.url {
                Some(u) => Some(u@),
                None => None,
            },
            None => None,
        },
    }
}

/// The pairs of an optional header list.
pub open spec fn spec_headers_view(h: Option<Vec<(String, String)>>) -> Seq<
    (Seq<char>, Seq<char>),
> {
    match h {
        Some(v) => v.deep_view(),
        None => Seq::empty(),
    }
}

/// The headers a trial carries: the experiment's own, then the shared ones.
/// A consumer that applies them in order lets a shared header override an
/// experiment's header of the same name.
pub open spec fn spec_resolved_headers(e: Experiment, base: Option<BaseConfig>) -> Seq<
    (Seq<char>, Seq<char>),
> {
    spec_headers_view(e.headers) + match base {
        Some(b) => spec_headers_view(b.headers),
        None => Seq::empty(),
    }
}

/// The sample count an experiment resolves to.
pub open spec fn spec_resolved_samples(e: Experiment) -> u64 {
    match e.samples {
        Some(s) => s,
        None => DEFAULT_SAMPLES,
    }
}

/// The warmup count an experiment resolves to: its own, else the shared
/// one, else the default.
pub open spec fn spec_resolved_warmup(e: Experiment, base: Option<BaseConfig>) -> u64 {
    match e.warmup {
        Some(w) => w,
        None => match base {
            Some(b) => match b.warmup {
                Some(w) => w,
                None => DEFAULT_WARMUP,
            },
            None => DEFAULT_WARMUP,
        },
    }
}

/// The query parameter space of an experiment (empty when absent).
pub open spec fn spec_query_space(e: Experiment) -> Seq<(Seq<char>, Seq<Seq<char>>)> {
    match e.query {
        Some(q) => spec_param_space(q@),
        None => Seq::empty(),
    }
}

/// The path parameter space of an experiment (empty when absent).
pub open spec fn spec_params_space(e: Experiment) -> Seq<(Seq<char>, Seq<Seq<char>>)> {
    match e.params {
        Some(p) => spec_param_space(p@),
        None => Seq::empty(),
    }
}

/// Whether an experiment can be expanded at all: it resolves to a URL and
/// the URL parser accepts it.
pub open spec fn spec_experiment_ok(e: Experiment, base: Option<BaseConfig>) -> bool {
    match spec_resolved_url(e, base) {
        Some(u) => url_ok(u),
        None => false,
    }
}

/// One trial for every path binding, for one fixed query binding.
pub open spec fn spec_trials_for_query(
    name: Seq<char>,
    url: Seq<char>,
    headers: Seq<(Seq<char>, Seq<char>)>,
    samples: u64,
    warmup: u64,
    q: Seq<(Seq<char>, Seq<char>)>,
    ps: Seq<Seq<(Seq<char>, Seq<char>)>>,
) -> Seq<TrialView>
    decreases ps.len(),
{
    if ps.len() == 0 {
        Seq::empty()
    } else {
        seq![
            TrialView { name, url, headers, query: q, params: ps.first(), samples, warmup },
        ] + spec_trials_for_query(name, url, headers, samples, warmup, q, ps.drop_first())
    }
}

/// One trial for every pair of a query binding and a path binding: the
/// query bindings in outer order, the path bindings in inner order.
pub open spec fn spec_trials_for_lists(
    name: Seq<char>,
    url: Seq<char>,
    headers: Seq<(Seq<char>, Seq<char>)>,
    samples: u64,
    warmup: u64,
    qs: Seq<Seq<(Seq<char>, Seq<char>)>>,
    ps: Seq<Seq<(Seq<char>, Seq<char>)>>,
) -> Seq<TrialView>
    decreases qs.len(),
{
    if qs.len() == 0 {
        Seq::empty()
    } else {
        spec_trials_for_query(name, url, headers, samples, warmup, qs.first(), ps)
            + spec_trials_for_lists(name, url, headers, samples, warmup, qs.drop_first(), ps)
    }
}

/// All trials of one experiment: its query and path spaces each expanded to
/// their Cartesian product, and one trial per pair of bindings, carrying
/// the resolved URL, headers and counts.
pub open spec fn spec_experiment_trials(
    name: String,
    e: Experiment,
    base: Option<BaseConfig>,
) -> Seq<TrialView>
    recommends
        spec_resolved_url(e, base) is Some,
{
    match spec_resolved_url(e, base) {
        Some(url) => spec_trials_for_lists(
            name@,
            url,
            spec_resolved_headers(e, base),
            spec_resolved_samples(e),
            spec_resolved_warmup(e, base),
            spec_cartesian(spec_query_space(e)),
            spec_cartesian(spec_params_space(e)),
        ),
        None => Seq::empty(),
    }
}

/// All trials of a configuration, experiments in order.
pub open spec fn spec_expand_trials(
    experiments: Seq<(String, Experiment)>,
    base: Option<BaseConfig>,
) -> Seq<TrialView>
    decreases experiments.len(),
{
    if experiments.len() == 0 {
        Seq::empty()
    } else {
        spec_experiment_trials(experiments.first().0, experiments.first().1, base)
            + spec_expand_trials(experiments.drop_first(), base)
    }
}

/// The error `expand` reports: the first experiment, in order, that cannot
/// be expanded, named if its URL is missing, quoted if its URL is rejected.
pub open spec fn spec_expand_error(
    experiments: Seq<(String, Experiment)>,
    base: Option<BaseConfig>,
    i: int,
    err: ConfigError,
) -> bool {
    &&& 0 <= i < experiments.len()
    &&& !spec_experiment_ok(experiments[i].1, base)
    &&& forall|j: int| 0 <= j < i ==> spec_experiment_ok(#[trigger] experiments[j].1, base)
    &&& match spec_resolved_url(experiments[i].1, base) {
        None => err matches ConfigError::MissingUrl(n) && n@ == experiments[i].0@,
        Some(u) => !url_ok(u) && (err matches ConfigError::InvalidUrl(t) && t@ == u),
    }
}

proof fn lemma_trials_for_query_append(
    name: Seq<char>,
    url: Seq<char>,
    headers: Seq<(Seq<char>, Seq<char>)>,
    samples: u64,
    warmup: u64,
    q: Seq<(Seq<char>, Seq<char>)>,
    ps: Seq<Seq<(Seq<char>, Seq<char>)>>,
    p: Seq<(Seq<char>, Seq<char>)>,
)
    ensures
        spec_trials_for_query(name, url, headers, samples, warmup, q, ps.push(p))
            =~= spec_trials_for_query(name, url, headers, samples, warmup, q, ps).push(
            TrialView { name, url, headers, query: q, params: p, samples, warmup },
        ),
    decreases ps.len(),
{
    if ps.len() == 0 {
        assert(ps.push(p).first() == p);
        assert(ps.push(p).drop_first() =~= Seq::<Seq<(Seq<char>, Seq<char>)>>::empty());
        assert(spec_trials_for_query(name, url, headers, samples, warmup, q, ps.push(p).drop_first())
            =~= Seq::<TrialView>::empty());
        assert(spec_trials_for_query(name, url, headers, samples, warmup, q, ps) =~= Seq::<
            TrialView,
        >::empty());
    } else {
        assert(ps.push(p).first() == ps.first());
        assert(ps.push(p).drop_first() =~= ps.drop_first().push(p));
        lemma_trials_for_query_append(name, url, headers, samples, warmup, q, ps.drop_first(), p);
        assert(spec_trials_for_query(name, url, headers, samples, warmup, q, ps.push(p)) =~= seq![
            TrialView { name, url, headers, query: q, params: ps.first(), samples, warmup },
        ] + spec_trials_for_query(name, url, headers, samples, warmup, q, ps.drop_first().push(p)));
    }
}

proof fn lemma_trials_for_lists_append(
    name: Seq<char>,
    url: Seq<char>,
    headers: Seq<(Seq<char>, Seq<char>)>,
    samples: u64,
    warmup: u64,
    qs: Seq<Seq<(Seq<char>, Seq<char>)>>,
    ps: Seq<Seq<(Seq<char>, Seq<char>)>>,
    q: Seq<(Seq<char>, Seq<char>)>,
)
    ensures
        spec_trials_for_lists(name, url, headers, samples, warmup, qs.push(q), ps)
            =~= spec_trials_for_lists(name, url, headers, samples, warmup, qs, ps)
            + spec_trials_for_query(name, url, headers, samples, warmup, q, ps),
    decreases qs.len(),
{
    if qs.len() == 0 {
        assert(qs.push(q).first() == q);
        assert(qs.push(q).drop_first() =~= Seq::<Seq<(Seq<char>, Seq<char>)>>::empty());
        assert(spec_trials_for_lists(name, url, headers, samples, warmup, qs.push(q).drop_first(), ps)
            =~= Seq::<TrialView>::empty());
        assert(spec_trials_for_lists(name, url, headers, samples, warmup, qs, ps) =~= Seq::<
            TrialView,
        >::empty());
    } else {
        assert(qs.push(q).first() == qs.first());
        assert(qs.push(q).drop_first() =~= qs.drop_first().push(q));
        lemma_trials_for_lists_append(name, url, headers, samples, warmup, qs.drop_first(), ps, q);
        assert(spec_trials_for_lists(name, url, headers, samples, warmup, qs.push(q), ps)
            =~= spec_trials_for_query(name, url, headers, samples, warmup, qs.first(), ps)
            + spec_trials_for_lists(name, url, headers, samples, warmup, qs.drop_first().push(q), ps));
    }
}

proof fn lemma_expand_trials_step(
    experiments: Seq<(String, Experiment)>,
    base: Option<BaseConfig>,
    i: int,
)
    requires
        0 <= i < experiments.len(),
    ensures
        spec_expand_trials(experiments.take(i + 1), base) =~= spec_expand_trials(
            experiments.take(i),
            base,
        ) + spec_experiment_trials(experiments[i].0, experiments[i].1, base),
    decreases i,
{
    if i == 0 {
        assert(experiments.take(1).first() == experiments[0]);
        assert(experiments.take(1).drop_first() =~= Seq::<(String, Experiment)>::empty());
        assert(experiments.take(0) =~= Seq::<(String, Experiment)>::empty());
    } else {
        assert(experiments.take(i + 1).drop_first() =~= experiments.drop_first().take(i));
        assert(experiments.take(i).drop_first() =~= experiments.drop_first().take(i - 1));
        lemma_expand_trials_step(experiments.drop_first(), base, i - 1);
        assert(experiments.drop_first()[i - 1] == experiments[i]);
        assert(spec_expand_trials(experiments.take(i + 1), base) =~= spec_experiment_trials(
            experiments[0].0,
            experiments[0].1,
            base,
        ) + spec_expand_trials(experiments.drop_first().take(i), base));
        assert(spec_expand_trials(experiments.take(i), base) =~= spec_experiment_trials(
            experiments[0].0,
            experiments[0].1,
            base,
        ) + spec_expand_trials(experiments.drop_first().take(i - 1), base));
    }
}

fn extend_pairs(dst: &mut Vec<(String, String)>, src: &Vec<(String, String)>)
    ensures
        final(dst).deep_view() == old(dst).deep_view() + src.deep_view(),
{
    let n = src.len();
    for i in 0..n
        invariant
            n == src.len(),
            dst.deep_view() =~= old(dst).deep_view() + src.deep_view().take(i as int),
    {
        let ghost prev_dv = dst.deep_view();
        dst.push((src[i].0.clone(), src[i].1.clone()));
        proof {
            assert(dst.deep_view() =~= prev_dv.push(src.deep_view()[i as int]));
            assert(src.deep_view().take(i as int).push(src.deep_view()[i as int])
                =~= src.deep_view().take(i + 1));
        }
    }
    proof {
        assert(src.deep_view().take(n as int) =~= src.deep_view());
    }
}

/// All trials of one experiment whose settings are already resolved: one
/// per pair of a query binding (outer) and a path binding (inner).
fn trials_for_lists(
    name: &String,
    url: &String,
    headers: &Vec<(String, String)>,
    samples: u64,
    warmup: u64,
    qbs: &Vec<Binding>,
    pbs: &Vec<Binding>,
) -> (result: Vec<Trial>)
    ensures
        spec_trial_views(result@) == spec_trials_for_lists(
            name@,
            url@,
            headers.deep_view(),
            samples,
            warmup,
            qbs.deep_view(),
            pbs.deep_view(),
        ),
{
    let mut result: Vec<Trial> = Vec::new();
    let nq = qbs.len();
    let np = pbs.len();
    proof {
        assert(qbs.deep_view().take(0) =~= Seq::<Seq<(Seq<char>, Seq<char>)>>::empty());
    }
    for qi in 0..nq
        invariant
            nq == qbs.len(),
            np == pbs.len(),
            spec_trial_views(result@) == spec_trials_for_lists(
                name@,
                url@,
                headers.deep_view(),
                samples,
                warmup,
                qbs.deep_view().take(qi as int),
                pbs.deep_view(),
            ),
    {
        for pi in 0..np
            invariant
                nq == qbs.len(),
                np == pbs.len(),
                qi < nq,
                spec_trial_views(result@) == spec_trials_for_lists(
                    name@,
                    url@,
                    headers.deep_view(),
                    samples,
                    warmup,
                    qbs.deep_view().take(qi as int),
                    pbs.deep_view(),
                ) + spec_trials_for_query(
                    name@,
                    url@,
                    headers.deep_view(),
                    samples,
                    warmup,
                    qbs.deep_view()[qi as int],
                    pbs.deep_view().take(pi as int),
                ),
        {
            let ghost prev_views = spec_trial_views(result@);
            let t = Trial {
                name: name.clone(),
                url: url.clone(),
                headers: clone_pairs(headers),
                query: clone_pairs(&qbs[qi]),
                params: clone_pairs(&pbs[pi]),
                samples,
                warmup,
            };
            proof {
                assert(t@ =~~= (TrialView {
                    name: name@,
                    url: url@,
                    headers: headers.deep_view(),
                    query: qbs.deep_view()[qi as int],
                    params: pbs.deep_view()[pi as int],
                    samples,
                    warmup,
                }));
            }
            result.push(t);
            proof {
                assert(spec_trial_views(result@) =~= prev_views.push(t@));
                assert(pbs.deep_view().take(pi as int).push(pbs.deep_view()[pi as int])
                    =~= pbs.deep_view().take(pi + 1));
                lemma_trials_for_query_append(
                    name@,
                    url@,
                    headers.deep_view(),
                    samples,
                    warmup,
                    qbs.deep_view()[qi as int],
                    pbs.deep_view().take(pi as int),
                    pbs.deep_view()[pi as int],
                );
            }
        }
        proof {
            assert(pbs.deep_view().take(np as int) =~= pbs.deep_view());
            assert(qbs.deep_view().take(qi as int).push(qbs.deep_view()[qi as int])
                =~= qbs.deep_view().take(qi + 1));
            lemma_trials_for_lists_append(
                name@,
                url@,
                headers.deep_view(),
                samples,
                warmup,
                qbs.deep_view().take(qi as int),
                pbs.deep_view(),
                qbs.deep_view()[qi as int],
            );
        }
    }
    proof {
        assert(qbs.deep_view().take(nq as int) =~= qbs.deep_view());
    }
    result
}

/// Expand a configuration into the full list of its trials, experiments in
/// order. Fails on the first experiment that resolves to no URL, or to a
/// URL the parser rejects; succeeds exactly when every experiment resolves
/// to an accepted URL.
pub fn expand(config: RootConfig) -> (r: Result<Vec<Trial>, ConfigError>)
    ensures
        match r {
            Ok(trials) => {
                &&& forall|i: int|
                    0 <= i < config.experiments@.len() ==> spec_experiment_ok(
                        #[trigger] config.experiments@[i].1,
                        config.config,
                    )
                &&& spec_trial_views(trials@) == spec_expand_trials(
                    config.experiments@,
                    config.config,
                )
            },
            Err(err) => exists|i: int|
                spec_expand_error(config.experiments@, config.config, i, err),
        },
{
    let mut trials: Vec<Trial> = Vec::new();
    let n = config.experiments.len();
    proof {
        assert(config.experiments@.take(0) =~= Seq::<(String, Experiment)>::empty());
    }
    for ei in 0..n
        invariant
            n == config.experiments.len(),
            spec_trial_views(trials@) == spec_expand_trials(
                config.experiments@.take(ei as int),
                config.config,
            ),
            forall|j: int|
                0 <= j < ei ==> spec_experiment_ok(
                    #[trigger] config.experiments@[j].1,
                    config.config,
                ),
    {
        let name = &config.experiments[ei].0;
        let exp = &config.experiments[ei].1;
        let url_s: String = match &exp.url {
            Some(u) => u.clone(),
            None => {
                let mut fallback: Option<String> = None;
                match &config.config {
                    Some(b) => match &b.url {
                        Some(u) => {
                            fallback = Some(u.clone());
                        },
                        None => {},
                    },
                    None => {},
                }
                match fallback {
                    Some(u) => u,
                    None => {
                        proof {
                            assert(spec_expand_error(
                                config.experiments@,
                                config.config,
                                ei as int,
                                ConfigError::MissingUrl(config.experiments@[ei as int].0),
                            ));
                        }
                        return Err(ConfigError::MissingUrl(name.clone()));
                    },
                }
            },
        };
        proof {
            assert(Some(url_s@) == spec_resolved_url(*exp, config.config));
        }
        if !url_is_valid(url_s.as_str()) {
            proof {
                assert(spec_expand_error(
                    config.experiments@,
                    config.config,
                    ei as int,
                    ConfigError::InvalidUrl(url_s),
                ));
            }
            return Err(ConfigError::InvalidUrl(url_s));
        }
        let mut headers: Vec<(String, String)> = Vec::new();
        match &exp.headers {
            Some(h) => extend_pairs(&mut headers, h),
            None => {},
        }
        match &config.config {
            Some(b) => match &b.headers {
                Some(h) => extend_pairs(&mut headers, h),
                None => {},
            },
            None => {},
        }
        proof {
            assert(headers.deep_view() =~= spec_resolved_headers(*exp, config.config));
        }
        let samples = match exp.samples {
            Some(s) => s,
            None => DEFAULT_SAMPLES,
        };
        let warmup = match exp.warmup {
            Some(w) => w,
            None => {
                let mut shared: Option<u64> = None;
                match &config.config {
                    Some(b) => shared = b.warmup,
                    None => {},
                }
                match shared {
                    Some(w) => w,
                    None => DEFAULT_WARMUP,
                }
            },
        };
        let empty_space: Vec<(String, crate::config::ParamValue)> = Vec::new();
        let qbs = match &exp.query {
            Some(q) => param_bindings(q),
            None => param_bindings(&empty_space),
        };
        let pbs = match &exp.params {
            Some(p) => param_bindings(p),
            None => param_bindings(&empty_space),
        };
        proof {
            assert(spec_param_space(Seq::<(String, crate::config::ParamValue)>::empty())
                =~= Seq::<(Seq<char>, Seq<Seq<char>>)>::empty());
            assert(qbs.deep_view() == spec_cartesian(spec_query_space(*exp)));
            assert(pbs.deep_view() == spec_cartesian(spec_params_space(*exp)));
        }
        let mut batch = trials_for_lists(name, &url_s, &headers, samples, warmup, &qbs, &pbs);
        let ghost trials_before = trials@;
        let ghost batch_views = spec_trial_views(batch@);
        trials.append(&mut batch);
        proof {
            assert(spec_trial_views(trials@) =~= spec_trial_views(trials_before) + batch_views);
            assert(batch_views == spec_experiment_trials(
                config.experiments@[ei as int].0,
                config.experiments@[ei as int].1,
                config.config,
            ));
            lemma_expand_trials_step(config.experiments@, config.config, ei as int);
        }
    }
    proof {
        assert(config.experiments@.take(n as int) =~= config.experiments@);
    }
    Ok(trials)
}


/// The most samples one analysis accepts; keeps every intermediate product
/// of the statistics inside 128-bit arithmetic.
pub const MAX_SAMPLES: usize = 4096;

/// The longest accepted attempt duration in milliseconds (about 49 days);
/// keeps every intermediate product of the statistics inside 128-bit
/// arithmetic.
pub const MAX_DURATION_MS: u64 = 4294967295;

/// Upper bound of a fixed-point mean: the longest duration, scaled.
pub const MEAN_LIMIT: u64 = 4294967295000;

/// Upper bound of a fixed-point sample standard deviation.
pub const STDDEV_LIMIT: u64 = 8589934590000;

/// One attempt's outcome: how long it took, in whole milliseconds, and the
/// HTTP status code it ended with. A failed attempt is recorded with status
/// 0 and still counts toward the sample count.
#[derive(Debug, Clone, Copy, PartialEq, Eq, Structural)]
pub struct TrialResult {
    pub duration_ms: u64,
    pub status: u16,
}

/// A trial together with the ordered outcomes of its recorded attempts
/// (warmup attempts are not kept).
#[derive(Debug, Clone, PartialEq, Eq)]
pub struct TrialResultSet {
    pub trial: Trial,
    pub results: Vec<TrialResult>,
}

/// The summary statistics of one trial's result set: sample mean, sample
/// standard deviation, and a two-sided confidence interval for the true
/// mean, all in thousandths of a millisecond.
#[derive(Debug)]
pub struct TrialAnalysis {
    pub result_set: TrialResultSet,
    pub mean: u64,
    pub stddev: u64,
    pub confidence_interval: (i64, i64),
}

/// The durations of a result set, in order.
pub open spec fn spec_durations(set: TrialResultSet) -> Seq<u64> {
    set.results@.map_values(|r: TrialResult| r.duration_ms)
}

/// The sum of a sequence of durations.
pub open spec fn spec_sum(s: Seq<u64>) -> int
    decreases s.len(),
{
    if s.len() == 0 {
        0
    } else {
        spec_sum(s.drop_last()) + s.last()
    }
}

/// The fixed-point sample mean: the scaled sum divided by the count,
/// rounded down.
pub open spec fn spec_mean_fp(s: Seq<u64>) -> int
    recommends
        s.len() > 0,
{
    spec_sum(s) * 1000 / (s.len() as int)
}

/// The sum of squared deviations of the scaled durations from m.
pub open spec fn spec_dev_sq_sum(s: Seq<u64>, m: int) -> int
    decreases s.len(),
{
    if s.len() == 0 {
        0
    } else {
        spec_dev_sq_sum(s.drop_last(), m) + (s.last() * 1000 - m) * (s.last() * 1000 - m)
    }
}

/// The fixed-point sample variance, with the unbiased n - 1 denominator.
pub open spec fn spec_var_fp(s: Seq<u64>) -> int
    recommends
        s.len() >= 2,
{
    spec_dev_sq_sum(s, spec_mean_fp(s)) / (s.len() - 1)
}

/// The fixed-point sample standard deviation.
pub open spec fn spec_stddev_fp(s: Seq<u64>) -> int {
    spec_isqrt(spec_var_fp(s) as nat) as int
}

/// The critical t value (in thousandths) for n samples at the fixed
/// one-tailed significance level 0.025, i.e. a 95% two-sided interval.
pub open spec fn spec_t_for_samples(n: int) -> int {
    spec_lookup_value((n - 1) as u32, 250) as int
}

/// The scaled square root of the sample count.
pub open spec fn spec_sqrt_n_fp(n: int) -> int {
    spec_isqrt((n * 1000000) as nat) as int
}

/// The fixed-point margin of error: t * stddev / sqrt(n), rounded down.
pub open spec fn spec_err_fp(s: Seq<u64>) -> int
    recommends
        s.len() >= 2,
{
    spec_t_for_samples(s.len() as int) * spec_stddev_fp(s) / spec_sqrt_n_fp(s.len() as int)
}

impl TrialAnalysis {
    /// Reduce a result set to its summary statistics: sample mean, sample
    /// standard deviation (n - 1 denominator), and the confidence interval
    /// mean +/- t(n - 1, 0.025) * stddev / sqrt(n), all in fixed point.
    pub fn analyze(set: TrialResultSet) -> (r: TrialAnalysis)
        requires
            2 <= set.results@.len() <= MAX_SAMPLES,
            forall|i: int|
                0 <= i < set.results@.len() ==> (#[trigger] set.results@[i]).duration_ms
                    <= MAX_DURATION_MS,
        ensures
            r.result_set == set,
            r.mean == spec_mean_fp(spec_durations(set)),
            r.stddev == spec_stddev_fp(spec_durations(set)),
            r.confidence_interval.0 == r.mean - spec_err_fp(spec_durations(set)),
            r.confidence_interval.1 == r.mean + spec_err_fp(spec_durations(set)),
            r.mean <= MEAN_LIMIT,
            r.stddev <= STDDEV_LIMIT,
            spec_analysis_wf(r),
    {
        let ghost ds = spec_durations(set);
        let n = set.results.len();
        proof {
            assert(ds.len() == n);
            assert(ds.take(0) =~= Seq::<u64>::empty());
        }
        let mut sum: u64 = 0;
        for i in 0..n
            invariant
                n == set.results@.len(),
                2 <= n <= MAX_SAMPLES,
                ds == spec_durations(set),
                forall|k: int|
                    0 <= k < set.results@.len() ==> (#[trigger] set.results@[k]).duration_ms
                        <= MAX_DURATION_MS,
                sum == spec_sum(ds.take(i as int)),
                sum <= i * MAX_DURATION_MS,
        {
            let ghost prev = sum;
            sum = sum + set.results[i].duration_ms;
            proof {
                assert(ds.take(i + 1).drop_last() =~= ds.take(i as int));
                assert(ds.take(i + 1).last() == ds[i as int]);
                assert(ds[i as int] == set.results@[i as int].duration_ms);
            }
        }
        proof {
            assert(ds.take(n as int) =~= ds);
        }
        let mean64: u64 = sum * 1000 / (n as u64);
        proof {
            assert(sum * 1000 <= (n as int) * (MAX_DURATION_MS * 1000)) by (nonlinear_arith)
                requires
                    sum <= n * MAX_DURATION_MS,
            ;
            vstd::arithmetic::div_mod::lemma_div_is_ordered(
                sum * 1000,
                (n as int) * (MEAN_LIMIT as int),
                n as int,
            );
            vstd::arithmetic::div_mod::lemma_div_multiples_vanish(
                MEAN_LIMIT as int,
                n as int,
            );
            assert(mean64 == spec_mean_fp(ds));
            assert(mean64 <= MEAN_LIMIT);
        }
        let mut sumsq: u128 = 0;
        proof {
            assert((MEAN_LIMIT as int) * (MEAN_LIMIT as int)
                < 340282366920938463463374607431768211455int / 8192) by (nonlinear_arith);
        }
        for i in 0..n
            invariant
                n == set.results@.len(),
                2 <= n <= MAX_SAMPLES,
                ds == spec_durations(set),
                forall|k: int|
                    0 <= k < set.results@.len() ==> (#[trigger] set.results@[k]).duration_ms
                        <= MAX_DURATION_MS,
                mean64 <= MEAN_LIMIT,
                sumsq == spec_dev_sq_sum(ds.take(i as int), mean64 as int),
                sumsq <= i * ((MEAN_LIMIT as int) * (MEAN_LIMIT as int)),
        {
            let x1000: u64 = set.results[i].duration_ms * 1000;
            let d: i128 = x1000 as i128 - mean64 as i128;
            proof {
                assert(d * d <= (MEAN_LIMIT as int) * (MEAN_LIMIT as int)) by (nonlinear_arith)
                    requires
                        - (MEAN_LIMIT as int) <= d <= MEAN_LIMIT as int,
                ;
                assert(d * d >= 0) by (nonlinear_arith);
            }
            let sq: u128 = (d * d) as u128;
            proof {
                let ml2 = (MEAN_LIMIT as int) * (MEAN_LIMIT as int);
                assert(sumsq + sq <= (i + 1) * ml2 && (i + 1) * ml2 <= 4097 * ml2)
                    by (nonlinear_arith)
                    requires
                        0 <= i < 4097,
                        sumsq <= i * ml2,
                        0 <= sq <= ml2,
                        ml2 >= 0,
                ;
            }
            sumsq = sumsq + sq;
            proof {
                assert(ds.take(i + 1).drop_last() =~= ds.take(i as int));
                assert(ds.take(i + 1).last() == ds[i as int]);
                assert(ds[i as int] == set.results@[i as int].duration_ms);
            }
        }
        proof {
            assert(ds.take(n as int) =~= ds);
        }
        let varq: u128 = sumsq / ((n as u128) - 1);
        proof {
            let ml2 = (MEAN_LIMIT as int) * (MEAN_LIMIT as int);
            assert((n as int) * ml2 <= 2 * ((n as int) - 1) * ml2) by (nonlinear_arith)
                requires
                    n >= 2,
                    ml2 >= 0,
            ;
            vstd::arithmetic::div_mod::lemma_div_is_ordered(
                sumsq as int,
                2 * ((n as int) - 1) * ml2,
                (n as int) - 1,
            );
            assert(2 * ((n as int) - 1) * ml2 == (2 * ml2) * ((n as int) - 1))
                by (nonlinear_arith);
            vstd::arithmetic::div_mod::lemma_div_multiples_vanish(2 * ml2, (n as int) - 1);
            assert(varq <= 2 * ml2);
            assert(varq == spec_var_fp(ds));
        }
        let sd128: u128 = isqrt(varq);
        proof {
            let ml2 = (MEAN_LIMIT as int) * (MEAN_LIMIT as int);
            assert(sd128 <= STDDEV_LIMIT) by (nonlinear_arith)
                requires
                    sd128 * sd128 <= varq,
                    varq <= 2 * ml2,
                    ml2 == (MEAN_LIMIT as int) * (MEAN_LIMIT as int),
                    MEAN_LIMIT == 4294967295000,
                    STDDEV_LIMIT == 8589934590000,
                    sd128 >= 0,
            ;
        }
        let stddev64: u64 = sd128 as u64;
        let dof: u32 = (n as u32) - 1;
        let t_fp: u32 = match crate::distributions::lookup_value(dof, 250) {
            Ok(t) => t,
            Err(_) => {
                proof {
                    assert(false);
                }
                0
            },
        };
        let sqn: u128 = isqrt((n as u128) * 1000000);
        proof {
            assert(sqn >= 1) by (nonlinear_arith)
                requires
                    (n as int) * 1000000 < ((sqn + 1) * (sqn + 1)),
                    n >= 2,
                    sqn >= 0,
            ;
        }
        proof {
            assert((t_fp as int) * (sd128 as int) <= 636619 * (STDDEV_LIMIT as int))
                by (nonlinear_arith)
                requires
                    0 <= t_fp <= 636619,
                    0 <= sd128 <= STDDEV_LIMIT,
            ;
        }
        let err128: u128 = (t_fp as u128) * (sd128 as u128) / sqn;
        proof {
            vstd::arithmetic::div_mod::lemma_div_is_ordered(
                (t_fp as int) * (sd128 as int),
                636619 * (STDDEV_LIMIT as int),
                sqn as int,
            );
            vstd::arithmetic::div_mod::lemma_div_is_ordered_by_denominator(
                636619 * (STDDEV_LIMIT as int),
                1,
                sqn as int,
            );
            assert(err128 <= 636619 * (STDDEV_LIMIT as int));
            assert(err128 == spec_err_fp(ds));
        }
        let err64: u64 = err128 as u64;
        let ci_low: i64 = mean64 as i64 - err64 as i64;
        let ci_high: i64 = mean64 as i64 + err64 as i64;
        TrialAnalysis {
            result_set: set,
            mean: mean64,
            stddev: stddev64,
            confidence_interval: (ci_low, ci_high),
        }
    }
}


/// Precision factor carried through the equivalence test's divisions.
pub const PRECISION: u64 = 1048576;

/// A variance-over-count term of the equivalence test, carrying the
/// precision factor: stddev^2 * PRECISION / n.
pub open spec fn spec_v_fp(s: int, n: int) -> int
    recommends
        n >= 1,
{
    s * s * (PRECISION as int) / n
}

/// The squared pooled standard deviation of two samples, carrying the
/// precision factor.
pub open spec fn spec_pooled_sq(s1: int, n1: int, s2: int, n2: int) -> int
    recommends
        n1 >= 2,
        n2 >= 2,
{
    ((n1 - 1) * (s1 * s1) + (n2 - 1) * (s2 * s2)) * (PRECISION as int) / (n1 + n2 - 2)
}

/// The denominator of the test statistic: pooled standard deviation times
/// the square root of the summed variance terms, both as integer roots.
pub open spec fn spec_equiv_denom(s1: int, n1: int, s2: int, n2: int) -> int {
    (spec_isqrt(spec_pooled_sq(s1, n1, s2, n2) as nat) as int) * (spec_isqrt(
        (spec_v_fp(s1, n1) + spec_v_fp(s2, n2)) as nat,
    ) as int)
}

/// The common divisor that brings both variance terms into 32-bit range
/// before the degrees-of-freedom quotient is formed.
pub open spec fn spec_w_scale(s1: int, n1: int, s2: int, n2: int) -> int {
    (spec_v_fp(s1, n1) + spec_v_fp(s2, n2)) / 2147483648 + 1
}

/// The Welch-Satterthwaite degrees of freedom, rounded down, computed on
/// the two rescaled variance terms.
pub open spec fn spec_welch_dof(s1: int, n1: int, s2: int, n2: int) -> int {
    let d = spec_w_scale(s1, n1, s2, n2);
    let w1 = spec_v_fp(s1, n1) / d;
    let w2 = spec_v_fp(s2, n2) / d;
    (w1 + w2) * (w1 + w2) * (n1 - 1) * (n2 - 1) / (w1 * w1 * (n2 - 1) + w2 * w2 * (n1 - 1))
}

/// The equivalence verdict on two samples' summary statistics: the absolute
/// test statistic (mean difference over the pooled denominator) stays below
/// the critical t value for the Welch degrees of freedom at the fixed
/// one-tailed significance level 0.025. The numerator constant restores the
/// three scales the denominator carries: the fixed point of the means
/// (1000), the precision factor (1048576), and the thousandths of the
/// critical value, so the quotient is the test statistic in thousandths.
pub open spec fn spec_equiv(m1: int, s1: int, n1: int, m2: int, s2: int, n2: int) -> bool {
    let diff = if m1 >= m2 {
        m1 - m2
    } else {
        m2 - m1
    };
    let t = spec_lookup_value(spec_welch_dof(s1, n1, s2, n2) as u32, 250) as int;
    diff * 1048576000000 / spec_equiv_denom(s1, n1, s2, n2) < t
}

/// What the equivalence test assumes of an analysis: enough samples for one
/// degree of freedom, and the bounds under which `analyze` produced it.
pub open spec fn spec_analysis_wf(a: TrialAnalysis) -> bool {
    &&& 2 <= a.result_set.results@.len() <= MAX_SAMPLES
    &&& a.mean <= MEAN_LIMIT
    &&& a.stddev <= STDDEV_LIMIT
}

impl TrialAnalysis {
    /// Welch's two-sample t test, inverted as an equivalence check: true
    /// when no significant difference between the two trials' mean
    /// latencies is found. At least one of the two standard deviations must
    /// be positive: with both zero the degrees-of-freedom quotient of the
    /// test is undefined.
    pub fn is_statistically_equivalent_to(&self, other: &TrialAnalysis) -> (r: bool)
        requires
            spec_analysis_wf(*self),
            spec_analysis_wf(*other),
            self.stddev > 0 || other.stddev > 0,
        ensures
            r == spec_equiv(
                self.mean as int,
                self.stddev as int,
                self.result_set.results@.len() as int,
                other.mean as int,
                other.stddev as int,
                other.result_set.results@.len() as int,
            ),
    {
        let n1: u128 = self.result_set.results.len() as u128;
        let n2: u128 = other.result_set.results.len() as u128;
        let s1: u128 = self.stddev as u128;
        let s2: u128 = other.stddev as u128;
        let ghost gs1 = s1 as int;
        let ghost gs2 = s2 as int;
        let ghost gn1 = n1 as int;
        let ghost gn2 = n2 as int;
        proof {
            assert(s1 * s1 <= (STDDEV_LIMIT as int) * (STDDEV_LIMIT as int)) by (nonlinear_arith)
                requires
                    0 <= s1 <= STDDEV_LIMIT,
            ;
            assert(s2 * s2 <= (STDDEV_LIMIT as int) * (STDDEV_LIMIT as int)) by (nonlinear_arith)
                requires
                    0 <= s2 <= STDDEV_LIMIT,
            ;
        }
        let s1sq: u128 = s1 * s1;
        let s2sq: u128 = s2 * s2;
        let ghost sl2 = (STDDEV_LIMIT as int) * (STDDEV_LIMIT as int);
        let v1: u128 = s1sq * 1048576 / n1;
        let v2: u128 = s2sq * 1048576 / n2;
        proof {
            vstd::arithmetic::div_mod::lemma_div_is_ordered(
                s1sq as int * 1048576,
                sl2 * 1048576,
                gn1,
            );
            vstd::arithmetic::div_mod::lemma_div_is_ordered_by_denominator(sl2 * 1048576, 1, gn1);
            vstd::arithmetic::div_mod::lemma_div_is_ordered(
                s2sq as int * 1048576,
                sl2 * 1048576,
                gn2,
            );
            vstd::arithmetic::div_mod::lemma_div_is_ordered_by_denominator(sl2 * 1048576, 1, gn2);
            assert(v1 <= sl2 * 1048576 && v2 <= sl2 * 1048576);
        }
        let vsum: u128 = v1 + v2;
        let nsum: u128 = n1 + n2 - 2;
        proof {
            assert((gn1 - 1) * (s1sq as int) <= 4095 * sl2 && (gn2 - 1) * (s2sq as int) <= 4095
                * sl2) by (nonlinear_arith)
                requires
                    1 <= gn1 - 1 <= 4095,
                    1 <= gn2 - 1 <= 4095,
                    0 <= s1sq <= sl2,
                    0 <= s2sq <= sl2,
            ;
        }
        let pnum: u128 = (n1 - 1) * s1sq + (n2 - 1) * s2sq;
        let sp2: u128 = pnum * 1048576 / nsum;
        proof {
            vstd::arithmetic::div_mod::lemma_div_is_ordered(
                pnum as int * 1048576,
                8190 * sl2 * 1048576,
                nsum as int,
            );
            vstd::arithmetic::div_mod::lemma_div_is_ordered_by_denominator(
                8190 * sl2 * 1048576,
                1,
                nsum as int,
            );
            assert(sp2 <= 8190 * sl2 * 1048576);
        }
        let sp: u128 = isqrt(sp2);
        let rsum: u128 = isqrt(vsum);
        proof {
            assert(sp <= 1329227995784915872903807060280344576int) by (nonlinear_arith)
                requires
                    sp * sp <= sp2,
                    sp2 <= 8190 * ((STDDEV_LIMIT as int) * (STDDEV_LIMIT as int)) * 1048576,
                    sp >= 0,
                    STDDEV_LIMIT == 8589934590000,
            ;
            assert(rsum <= 1329227995784915872903807060280344576int) by (nonlinear_arith)
                requires
                    rsum * rsum <= vsum,
                    vsum <= 2 * ((STDDEV_LIMIT as int) * (STDDEV_LIMIT as int)) * 1048576,
                    rsum >= 0,
                    STDDEV_LIMIT == 8589934590000,
            ;
            assert(sp * rsum < 340282366920938463463374607431768211455int) by (nonlinear_arith)
                requires
                    0 <= sp,
                    0 <= rsum,
                    sp * sp <= sp2,
                    rsum * rsum <= vsum,
                    sp2 <= 8190 * ((STDDEV_LIMIT as int) * (STDDEV_LIMIT as int)) * 1048576,
                    vsum <= 2 * ((STDDEV_LIMIT as int) * (STDDEV_LIMIT as int)) * 1048576,
                    STDDEV_LIMIT == 8589934590000,
            ;
        }
        let denom: u128 = sp * rsum;
        proof {
            if gs1 >= 1 {
                assert(s1sq >= 1 && (gn1 - 1) * (s1sq as int) >= 1) by (nonlinear_arith)
                    requires
                        gs1 >= 1,
                        s1sq == gs1 * gs1,
                        gn1 >= 2,
                ;
            } else {
                assert(s2sq >= 1 && (gn2 - 1) * (s2sq as int) >= 1) by (nonlinear_arith)
                    requires
                        gs2 >= 1,
                        s2sq == gs2 * gs2,
                        gn2 >= 2,
                ;
            }
            assert(pnum >= 1);
            vstd::arithmetic::div_mod::lemma_div_is_ordered(
                1048576,
                pnum as int * 1048576,
                nsum as int,
            );
            vstd::arithmetic::div_mod::lemma_div_is_ordered_by_denominator(
                1048576,
                nsum as int,
                8190,
            );
            assert(1048576int / 8190 == 128);
            assert(sp2 >= 1);
            assert(sp >= 1) by (nonlinear_arith)
                requires
                    sp2 < (sp + 1) * (sp + 1),
                    sp2 >= 1,
                    sp >= 0,
            ;
            if gs1 >= 1 {
                vstd::arithmetic::div_mod::lemma_div_is_ordered(
                    1048576,
                    s1sq as int * 1048576,
                    gn1,
                );
                vstd::arithmetic::div_mod::lemma_div_is_ordered_by_denominator(1048576, gn1, 4096);
            } else {
                vstd::arithmetic::div_mod::lemma_div_is_ordered(
                    1048576,
                    s2sq as int * 1048576,
                    gn2,
                );
                vstd::arithmetic::div_mod::lemma_div_is_ordered_by_denominator(1048576, gn2, 4096);
            }
            assert(1048576int / 4096 == 256);
            assert(vsum >= 1);
            assert(rsum >= 1) by (nonlinear_arith)
                requires
                    vsum < (rsum + 1) * (rsum + 1),
                    vsum >= 1,
                    rsum >= 0,
            ;
            assert(denom >= 1) by (nonlinear_arith)
                requires
                    sp >= 1,
                    rsum >= 1,
                    denom == sp * rsum,
            ;
        }
        let wd: u128 = vsum / 2147483648 + 1;
        let w1: u128 = v1 / wd;
        let w2: u128 = v2 / wd;
        proof {
            vstd::arithmetic::div_mod::lemma_fundamental_div_mod(vsum as int, 2147483648);
            vstd::arithmetic::div_mod::lemma_mod_bound(vsum as int, 2147483648);
            vstd::arithmetic::div_mod::lemma_fundamental_div_mod(v1 as int, wd as int);
            vstd::arithmetic::div_mod::lemma_mod_bound(v1 as int, wd as int);
            vstd::arithmetic::div_mod::lemma_fundamental_div_mod(v2 as int, wd as int);
            vstd::arithmetic::div_mod::lemma_mod_bound(v2 as int, wd as int);
            assert(w1 + w2 <= 2147483648 && w1 + w2 >= 1) by (nonlinear_arith)
                requires
                    vsum == 2147483648 * ((vsum as int) / 2147483648) + (vsum as int) % 2147483648,
                    0 <= (vsum as int) % 2147483648 < 2147483648,
                    wd == (vsum as int) / 2147483648 + 1,
                    v1 == (wd as int) * ((v1 as int) / (wd as int)) + (v1 as int) % (wd as int),
                    0 <= (v1 as int) % (wd as int) < wd,
                    v2 == (wd as int) * ((v2 as int) / (wd as int)) + (v2 as int) % (wd as int),
                    0 <= (v2 as int) % (wd as int) < wd,
                    w1 == (v1 as int) / (wd as int),
                    w2 == (v2 as int) / (wd as int),
                    vsum == v1 + v2,
                    vsum >= 1,
                    wd >= 1,
            ;
        }
        let wsum: u128 = w1 + w2;
        proof {
            assert(wsum * wsum * (gn1 - 1) * (gn2 - 1)
                <= 2147483648int * 2147483648 * 4095 * 4095 && wsum * wsum * (gn1 - 1)
                <= 2147483648int * 2147483648 * 4095 && wsum * wsum
                <= 2147483648int * 2147483648 && w1 * w1 * (gn2 - 1) + w2 * w2 * (gn1 - 1)
                <= 2147483648int * 2147483648 * 4095 * 2 && w1 * w1 * (gn2 - 1)
                <= 2147483648int * 2147483648 * 4095 && w2 * w2 * (gn1 - 1)
                <= 2147483648int * 2147483648 * 4095 && w1 * w1 <= 2147483648int * 2147483648
                && w2 * w2 <= 2147483648int * 2147483648) by (nonlinear_arith)
                requires
                    0 <= w1,
                    0 <= w2,
                    wsum == w1 + w2,
                    1 <= wsum <= 2147483648,
                    1 <= gn1 - 1 <= 4095,
                    1 <= gn2 - 1 <= 4095,
            ;
        }
        let dnum: u128 = wsum * wsum * (n1 - 1) * (n2 - 1);
        let dden: u128 = w1 * w1 * (n2 - 1) + w2 * w2 * (n1 - 1);
        proof {
            assert(dden >= 1 && dnum >= dden && dnum <= 8190 * dden) by (nonlinear_arith)
                requires
                    0 <= w1,
                    0 <= w2,
                    wsum == w1 + w2,
                    wsum >= 1,
                    1 <= gn1 - 1 <= 4095,
                    1 <= gn2 - 1 <= 4095,
                    dnum == wsum * wsum * (gn1 - 1) * (gn2 - 1),
                    dden == w1 * w1 * (gn2 - 1) + w2 * w2 * (gn1 - 1),
            ;
        }
        let dofq: u128 = dnum / dden;
        proof {
            vstd::arithmetic::div_mod::lemma_div_is_ordered(dden as int, dnum as int, dden as int);
            vstd::arithmetic::div_mod::lemma_div_multiples_vanish(1, dden as int);
            vstd::arithmetic::div_mod::lemma_div_is_ordered(dnum as int, 8190 * (dden as int), dden as int);
            vstd::arithmetic::div_mod::lemma_div_multiples_vanish(8190, dden as int);
            assert(1 <= dofq <= 8190);
        }
        let dof: u32 = dofq as u32;
        let t_fp: u32 = match crate::distributions::lookup_value(dof, 250) {
            Ok(t) => t,
            Err(_) => {
                proof {
                    assert(false);
                }
                0
            },
        };
        let diff: u64 = if self.mean >= other.mean {
            self.mean - other.mean
        } else {
            other.mean - self.mean
        };
        let lhs: u128 = (diff as u128) * 1048576000000;
        let q: u128 = lhs / denom;
        q < (t_fp as u128)
    }
}


/// Symmetry of the equivalence check: `a.is_statistically_equivalent_to(b)`
/// and `b.is_statistically_equivalent_to(a)` return the same verdict, for
/// every pair of summary statistics, since every term of the test is
/// symmetric in the two samples.
pub proof fn lemma_equiv_symmetric(m1: int, s1: int, n1: int, m2: int, s2: int, n2: int)
    ensures
        spec_equiv(m1, s1, n1, m2, s2, n2) == spec_equiv(m2, s2, n2, m1, s1, n1),
{
    assert((n1 - 1) * (s1 * s1) + (n2 - 1) * (s2 * s2) == (n2 - 1) * (s2 * s2) + (n1 - 1) * (s1
        * s1)) by (nonlinear_arith);
    let d = spec_w_scale(s1, n1, s2, n2);
    let w1 = spec_v_fp(s1, n1) / d;
    let w2 = spec_v_fp(s2, n2) / d;
    assert((w1 + w2) * (w1 + w2) * (n1 - 1) * (n2 - 1) == (w2 + w1) * (w2 + w1) * (n2 - 1) * (n1
        - 1)) by (nonlinear_arith);
    assert(w1 * w1 * (n2 - 1) + w2 * w2 * (n1 - 1) == w2 * w2 * (n1 - 1) + w1 * w1 * (n2 - 1))
        by (nonlinear_arith);
    assert(spec_welch_dof(s1, n1, s2, n2) == spec_welch_dof(s2, n2, s1, n1));
    assert(spec_pooled_sq(s1, n1, s2, n2) == spec_pooled_sq(s2, n2, s1, n1));
    assert(spec_equiv_denom(s1, n1, s2, n2) == spec_equiv_denom(s2, n2, s1, n1));
}

/// Reflexivity of the equivalence check: a trial with a positive standard
/// deviation is always reported equivalent to itself, since the mean
/// difference vanishes while the critical value is positive.
pub proof fn lemma_equiv_reflexive(m: int, s: int, n: int)
    requires
        1 <= s <= STDDEV_LIMIT,
        2 <= n <= MAX_SAMPLES,
    ensures
        spec_equiv(m, s, n, m, s, n),
{
    let p = PRECISION as int;
    let ssq = s * s;
    assert(1 <= ssq <= (STDDEV_LIMIT as int) * (STDDEV_LIMIT as int)) by (nonlinear_arith)
        requires
            1 <= s <= STDDEV_LIMIT,
            ssq == s * s,
    ;
    let v = spec_v_fp(s, n);
    assert(((n - 1) * ssq + (n - 1) * ssq) * p == (ssq * p) * (n + n - 2)) by (nonlinear_arith);
    vstd::arithmetic::div_mod::lemma_div_multiples_vanish(ssq * p, n + n - 2);
    assert(spec_pooled_sq(s, n, s, n) == ssq * p);
    assert(ssq * p >= p) by (nonlinear_arith)
        requires
            ssq >= 1,
            p == 1048576,
    ;
    let sp = spec_isqrt((ssq * p) as nat) as int;
    crate::math::lemma_isqrt_bounds((ssq * p) as nat);
    assert(sp >= 1) by (nonlinear_arith)
        requires
            ssq * p < (sp + 1) * (sp + 1),
            ssq * p >= 1048576,
            sp >= 0,
    ;
    vstd::arithmetic::div_mod::lemma_div_is_ordered(p, ssq * p, n);
    vstd::arithmetic::div_mod::lemma_div_is_ordered_by_denominator(p, n, 4096);
    assert(1048576int / 4096 == 256);
    assert(v >= 256);
    let vsum = v + v;
    let rsum = spec_isqrt(vsum as nat) as int;
    crate::math::lemma_isqrt_bounds(vsum as nat);
    assert(rsum >= 1) by (nonlinear_arith)
        requires
            vsum < (rsum + 1) * (rsum + 1),
            vsum >= 512,
            rsum >= 0,
    ;
    let denom = spec_equiv_denom(s, n, s, n);
    assert(denom >= 1) by (nonlinear_arith)
        requires
            sp >= 1,
            rsum >= 1,
            denom == sp * rsum,
    ;
    let diff = if m >= m {
        m - m
    } else {
        m - m
    };
    assert(diff * 1048576000000 == 0);
    assert(0int / denom == 0) by (nonlinear_arith)
        requires
            denom >= 1,
    ;
    let dof = spec_welch_dof(s, n, s, n) as u32;
    crate::distributions::lemma_t_table_row_bounds(
        crate::distributions::spec_key_for_dof(dof),
    );
    assert(crate::distributions::spec_index_for_alpha(250) == Some(5usize));
    assert(spec_lookup_value(dof, 250) >= 674);
}

} // verus!
