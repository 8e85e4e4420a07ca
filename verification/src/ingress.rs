//! The TLS checks of an Ingress: it may opt out by annotation, otherwise it
//! must carry a TLS section; the mutation gives one to an Ingress without,
//! covering its hosts, with the annotations its controller and cert-manager
//! need.
use vstd::prelude::*;

use crate::helpers::{
    get_external_dns_hostname, get_skip, lookup, pairs, patch_annotations, patched_annotations,
    dns_hosts, first_occurrences, texts, ingress_class_from_text, ControlFlow, DenyReason,
    HelperError, IngressTlsConfig, Status, SupportedIngressClass, EXTERNAL_DNS_HOSTNAME,
    SKIP_ANNOTATION, TRAEFIK_MIDDLEWARE_ANNOTATION, law_traefik_middleware_in_own_namespace,
};
use crate::text::same_text;

verus! {

/// A TLS section of an Ingress.
#[derive(Debug)]
pub struct IngressTls {
    pub hosts: Option<Vec<String>>,
    pub secret_name: Option<String>,
}

/// What the checks read of an Ingress's spec: its class, the host of each
/// rule, and its TLS sections.
#[derive(Debug)]
pub struct IngressSpec {
    pub ingress_class_name: Option<String>,
    pub rules: Option<Vec<Option<String>>>,
    pub tls: Option<Vec<IngressTls>>,
}

/// What the checks read of an Ingress.
#[derive(Debug)]
pub struct Ingress {
    pub name: Option<String>,
    pub namespace: Option<String>,
    pub annotations: Option<Vec<(String, String)>>,
    pub spec: Option<IngressSpec>,
}

pub struct IngressTlsView {
    pub hosts: Option<Seq<Seq<char>>>,
    pub secret_name: Option<Seq<char>>,
}

pub struct IngressSpecView {
    pub ingress_class_name: Option<Seq<char>>,
    pub rules: Option<Seq<Option<Seq<char>>>>,
    pub tls: Option<Seq<IngressTlsView>>,
}

pub struct IngressView {
    pub name: Option<Seq<char>>,
    pub namespace: Option<Seq<char>>,
    pub annotations: Option<Seq<(Seq<char>, Seq<char>)>>,
    pub spec: Option<IngressSpecView>,
}

pub open spec fn opt_text(s: Option<String>) -> Option<Seq<char>> {
    match s {
        Some(t) => Some(t@),
        None => None,
    }
}

impl View for IngressTls {
    type V = IngressTlsView;

    open spec fn view(&self) -> IngressTlsView {
        IngressTlsView {
            hosts: match self.hosts {
                Some(h) => Some(texts(h@)),
                None => None,
            },
            secret_name: opt_text(self.secret_name),
        }
    }
}

impl View for IngressSpec {
    type V = IngressSpecView;

    open spec fn view(&self) -> IngressSpecView {
        IngressSpecView {
            ingress_class_name: opt_text(self.ingress_class_name),
            rules: match self.rules {
                Some(r) => Some(r@.map_values(|h: Option<String>| opt_text(h))),
                None => None,
            },
            tls: match self.tls {
                Some(t) => Some(t@.map_values(|x: IngressTls| x@)),
                None => None,
            },
        }
    }
}

impl View for Ingress {
    type V = IngressView;

    open spec fn view(&self) -> IngressView {
        IngressView {
            name: opt_text(self.name),
            namespace: opt_text(self.namespace),
            annotations: match self.annotations {
                Some(a) => Some(pairs(a@)),
                None => None,
            },
            spec: match self.spec {
                Some(s) => Some(s@),
                None => None,
            },
        }
    }
}

// ---------------------------------------------------------------------------
// Validation
// ---------------------------------------------------------------------------

/// The first check: an Ingress annotated `skip: "true"` is admitted, any
/// other value moves on; without the annotation the check has nothing to go by.
pub open spec fn skip_outcome(annotations: Option<Seq<(Seq<char>, Seq<char>)>>) -> Option<
    Result<Status, String>,
> {
    match annotations {
        None => None,
        Some(l) => match lookup(l, SKIP_ANNOTATION@) {
            None => None,
            Some(v) => if v == "true"@ {
                Some(Ok(Status::Allowed))
            } else {
                Some(Ok(Status::MoveOn))
            },
        },
    }
}

/// The second check: an Ingress without TLS sections is refused; without a
/// spec the check has nothing to go by.
pub open spec fn tls_outcome(spec: Option<IngressSpecView>) -> Option<Result<Status, String>> {
    match spec {
        None => None,
        Some(s) => if s.tls is None || s.tls->0.len() == 0 {
            Some(Ok(Status::Denied(DenyReason::IngressNoTLS)))
        } else {
            Some(Ok(Status::MoveOn))
        },
    }
}

/// The two checks in a chain: the second runs when the first lets the chain
/// go on.
pub open spec fn validate_ingress_spec(ing: IngressView) -> Option<Result<Status, String>> {
    let first = skip_outcome(ing.annotations);
    if first.continues() {
        tls_outcome(ing.spec)
    } else {
        first
    }
}

fn skip_check(ingress: &Ingress) -> (r: Option<Result<Status, String>>)
    ensures
        r == skip_outcome(ingress@.annotations),
{
    let skip = get_skip(&ingress.annotations)?;
    if same_text(skip.as_str(), "true") {
        Some(Ok(Status::Allowed))
    } else {
        Some(Ok(Status::MoveOn))
    }
}

fn tls_check(ingress: &Ingress) -> (r: Option<Result<Status, String>>)
    ensures
        r == tls_outcome(ingress@.spec),
{
    let spec = ingress.spec.as_ref()?;
    let missing = match &spec.tls {
        None => true,
        Some(t) => t.len() == 0,
    };
    if missing {
        Some(Ok(Status::Denied(DenyReason::IngressNoTLS)))
    } else {
        Some(Ok(Status::MoveOn))
    }
}

/// Runs the TLS checks of an Ingress.
pub fn validate_ingress(ingress: &Ingress) -> (r: Option<Result<Status, String>>)
    ensures
        r == validate_ingress_spec(ingress@),
{
    let mut accum = <Option<Result<Status, String>> as ControlFlow>::initialize_value();
    if accum.is_continue() {
        accum = skip_check(ingress);
    }
    if accum.is_continue() {
        accum = tls_check(ingress);
    }
    accum
}

// ---------------------------------------------------------------------------
// Mutation
// ---------------------------------------------------------------------------

/// The hosts that are present, in order.
pub open spec fn present(s: Seq<Option<Seq<char>>>) -> Seq<Seq<char>>
    decreases s.len(),
{
    if s.len() == 0 {
        Seq::empty()
    } else {
        match s.last() {
            Some(h) => present(s.drop_last()).push(h),
            None => present(s.drop_last()),
        }
    }
}

/// The hosts an Ingress serves: those of its rules, then those of its
/// external-dns annotation, each once.
pub open spec fn ingress_hosts(ing: IngressView) -> Seq<Seq<char>> {
    let rule_hosts = present(ing.spec->0.rules->0);
    let ext = match ing.annotations {
        Some(l) => match lookup(l, EXTERNAL_DNS_HOSTNAME@) {
            Some(v) => dns_hosts(v),
            None => Seq::empty(),
        },
        None => Seq::empty(),
    };
    first_occurrences(rule_hosts + ext)
}

/// The class an Ingress names, as the annotations are chosen by it.
pub open spec fn class_of(spec: IngressSpecView) -> Result<SupportedIngressClass, HelperError> {
    match ingress_class_from_text(spec.ingress_class_name->0) {
        Some(c) => Ok(c),
        None => Err(HelperError::UnsupportedIngressClass),
    }
}

/// The Ingress with one TLS section covering its hosts, its secret named
/// after the Ingress, and the annotations its class and cert-manager need.
pub open spec fn tls_target(ing: IngressView, conf: IngressTlsConfig) -> IngressView {
    let spec = ing.spec->0;
    let annotations = match ing.annotations {
        Some(l) => l,
        None => Seq::empty(),
    };
    IngressView {
        annotations: Some(
            patched_annotations(annotations, class_of(spec), ing.namespace->0, conf),
        ),
        spec: Some(
            IngressSpecView {
                tls: Some(
                    seq![
                        IngressTlsView {
                            hosts: Some(ingress_hosts(ing)),
                            secret_name: Some(ing.name->0 + "-tls"@),
                        },
                    ],
                ),
                ..spec
            },
        ),
        ..ing
    }
}

/// The Ingress a Traefik Ingress without a middlewares annotation is patched
/// to (see `mutate_ingress`) carries the redirect middleware of the
/// Ingress's own namespace, `namespace-n@kubernetescrd`, for a redirect name
/// `n` without `/`, whatever the Ingress's name.
pub proof fn law_patched_ingress_redirects_in_its_namespace(
    ing: IngressView,
    conf: IngressTlsConfig,
    n: Seq<char>,
)
    requires
        ing.spec is Some,
        ing.namespace is Some,
        class_of(ing.spec->0) == Ok::<SupportedIngressClass, HelperError>(
            SupportedIngressClass::Traefik,
        ),
        conf.traefik_ingress_redirect_resource_name matches Some(v) && v@ == n,
        forall|j: int| 0 <= j < n.len() ==> n[j] != '/',
        ing.annotations matches Some(l) ==> lookup(l, TRAEFIK_MIDDLEWARE_ANNOTATION@) is None,
    ensures
        tls_target(ing, conf).annotations matches Some(a) && lookup(
            a,
            TRAEFIK_MIDDLEWARE_ANNOTATION@,
        ) == Some(ing.namespace->0 + "-"@ + n + "@kubernetescrd"@),
{
    let annotations = match ing.annotations {
        Some(l) => l,
        None => Seq::empty(),
    };
    law_traefik_middleware_in_own_namespace(annotations, ing.namespace->0, conf, n);
}

/// What the Ingress mutation decides.
#[derive(Debug)]
pub enum IngressOutcome {
    /// The checks' outcome, unchanged.
    Status(Status),
    /// Admit the Ingress as changed to this.
    Patched(Ingress),
}

pub open spec fn no_hosts_message() -> Seq<char> {
    "The Ingress does not contain hosts information"@
}

pub open spec fn as_outcome(v: Option<Result<Status, String>>) -> Option<Result<IngressOutcome, String>> {
    match v {
        None => None,
        Some(Ok(s)) => Some(Ok(IngressOutcome::Status(s))),
        Some(Err(e)) => Some(Err(e)),
    }
}

/// `Itertools::unique` on texts: its documentation says it keeps, in order,
/// the first of equal items.
#[verifier::external_body]
fn unique_texts(v: Vec<String>) -> (r: Vec<String>)
    ensures
        texts(r@) == first_occurrences(texts(v@)),
{
    itertools::Itertools::unique(v.into_iter()).collect()
}

fn copy_text(s: &Option<String>) -> (r: Option<String>)
    ensures
        opt_text(r) == opt_text(*s),
{
    match s {
        Some(t) => Some(t.clone()),
        None => None,
    }
}

fn copy_texts(v: &Vec<String>) -> (r: Vec<String>)
    ensures
        texts(r@) == texts(v@),
{
    let mut out: Vec<String> = Vec::new();
    let mut i: usize = 0;
    while i < v.len()
        invariant
            i <= v.len(),
            out.len() == i,
            forall|j: int| 0 <= j < i ==> #[trigger] out@[j]@ == v@[j]@,
        decreases v.len() - i,
    {
        out.push(v[i].clone());
        i = i + 1;
    }
    assert(texts(out@) =~= texts(v@));
    out
}

impl Ingress {
    /// A copy of the Ingress.
    pub fn duplicate(&self) -> (r: Ingress)
        ensures
            r@ == self@,
    {
        let annotations = match &self.annotations {
            None => None,
            Some(l) => {
                let mut out: Vec<(String, String)> = Vec::new();
                let mut i: usize = 0;
                while i < l.len()
                    invariant
                        i <= l.len(),
                        out.len() == i,
                        forall|j: int|
                            #![trigger out@[j]]
                            0 <= j < i ==> out@[j].0@ == l@[j].0@ && out@[j].1@ == l@[j].1@,
                    decreases l.len() - i,
                {
                    out.push((l[i].0.clone(), l[i].1.clone()));
                    i = i + 1;
                }
                assert(pairs(out@) =~= pairs(l@));
                Some(out)
            },
        };
        let spec = match &self.spec {
            None => None,
            Some(sp) => {
                let rules = match &sp.rules {
                    None => None,
                    Some(rs) => {
                        let mut out: Vec<Option<String>> = Vec::new();
                        let mut i: usize = 0;
                        while i < rs.len()
                            invariant
                                i <= rs.len(),
                                out.len() == i,
                                forall|j: int|
                                    0 <= j < i ==> opt_text(#[trigger] out@[j]) == opt_text(rs@[j]),
                            decreases rs.len() - i,
                        {
                            out.push(copy_text(&rs[i]));
                            i = i + 1;
                        }
                        assert(out@.map_values(|h: Option<String>| opt_text(h)) =~= rs@.map_values(
                            |h: Option<String>| opt_text(h),
                        ));
                        Some(out)
                    },
                };
                let tls = match &sp.tls {
                    None => None,
                    Some(ts) => {
                        let mut out: Vec<IngressTls> = Vec::new();
                        let mut i: usize = 0;
                        while i < ts.len()
                            invariant
                                i <= ts.len(),
                                out.len() == i,
                                forall|j: int| 0 <= j < i ==> #[trigger] out@[j]@ == ts@[j]@,
                            decreases ts.len() - i,
                        {
                            let hosts = match &ts[i].hosts {
                                None => None,
                                Some(h) => Some(copy_texts(h)),
                            };
                            out.push(IngressTls { hosts, secret_name: copy_text(&ts[i].secret_name) });
                            i = i + 1;
                        }
                        assert(out@.map_values(|x: IngressTls| x@) =~= ts@.map_values(
                            |x: IngressTls| x@,
                        ));
                        Some(out)
                    },
                };
                Some(
                    IngressSpec {
                        ingress_class_name: copy_text(&sp.ingress_class_name),
                        rules,
                        tls,
                    },
                )
            },
        };
        Ingress {
            name: copy_text(&self.name),
            namespace: copy_text(&self.namespace),
            annotations,
            spec,
        }
    }
}

/// The hosts of the rules that name one.
fn rule_hosts(rules: &Vec<Option<String>>) -> (r: Vec<String>)
    ensures
        texts(r@) == present(rules@.map_values(|h: Option<String>| opt_text(h))),
{
    let ghost rs = rules@.map_values(|h: Option<String>| opt_text(h));
    let mut out: Vec<String> = Vec::new();
    let mut i: usize = 0;
    while i < rules.len()
        invariant
            i <= rules.len(),
            rs == rules@.map_values(|h: Option<String>| opt_text(h)),
            texts(out@) == present(rs.take(i as int)),
        decreases rules.len() - i,
    {
        assert(rs.take(i + 1).drop_last() =~= rs.take(i as int));
        match &rules[i] {
            Some(h) => {
                out.push(h.clone());
                assert(texts(out@) =~= present(rs.take(i as int)).push(h@));
            },
            None => {},
        }
        i = i + 1;
    }
    assert(rs.take(i as int) =~= rs);
    out
}

/// The Ingress mutation: an Ingress refused for having no TLS section gets
/// one covering its hosts (refused as invalid when it has none), with the
/// annotations its class and cert-manager need; any other outcome of the
/// checks stands.  `None` when the Ingress lacks what the mutation reads.
pub fn mutate_ingress(ingress: &Ingress, conf: &IngressTlsConfig) -> (r: Option<
    Result<IngressOutcome, String>,
>)
    ensures
        ({
            let v = validate_ingress_spec(ingress@);
            if v != Some(Ok::<Status, String>(Status::Denied(DenyReason::IngressNoTLS))) {
                r == as_outcome(v)
            } else if ingress@.name is None || ingress@.namespace is None
                || ingress@.spec->0.ingress_class_name is None || ingress@.spec->0.rules is None {
                r is None
            } else if ingress_hosts(ingress@).len() == 0 {
                r matches Some(Ok(IngressOutcome::Status(Status::Invalid(m)))) && m@
                    == no_hosts_message()
            } else {
                r matches Some(Ok(IngressOutcome::Patched(t))) && t@ == tls_target(ingress@, *conf)
            }
        }),
{
    let validate_result = validate_ingress(ingress);
    let needs_tls = match &validate_result {
        Some(Ok(Status::Denied(DenyReason::IngressNoTLS))) => true,
        _ => false,
    };
    if !needs_tls {
        return match validate_result {
            None => None,
            Some(Ok(s)) => Some(Ok(IngressOutcome::Status(s))),
            Some(Err(e)) => Some(Err(e)),
        };
    }
    let name = ingress.name.as_ref()?;
    let ns = ingress.namespace.as_ref()?;
    let spec = ingress.spec.as_ref()?;
    let class_name = spec.ingress_class_name.as_ref()?;
    let ic = SupportedIngressClass::from_str(class_name.as_str());
    let rules = spec.rules.as_ref()?;
    let mut hosts = rule_hosts(rules);
    let ghost from_rules = texts(hosts@);
    match get_external_dns_hostname(&ingress.annotations) {
        Some(edns) => {
            let mut j: usize = 0;
            while j < edns.len()
                invariant
                    j <= edns.len(),
                    hosts.len() == from_rules.len() + j,
                    forall|k: int| 0 <= k < from_rules.len() ==> #[trigger] hosts@[k]@ == from_rules[k],
                    forall|k: int| 0 <= k < j ==> #[trigger] hosts@[from_rules.len() + k]@ == edns@[k]@,
                decreases edns.len() - j,
            {
                hosts.push(edns[j].clone());
                j = j + 1;
            }
            assert forall|k: int| 0 <= k < hosts.len() implies texts(hosts@)[k] == (from_rules
                + texts(edns@))[k] by {
                if k >= from_rules.len() {
                    let q = k - from_rules.len();
                    assert(hosts@[from_rules.len() + q]@ == edns@[q]@);
                }
            }
            assert(texts(hosts@) =~= from_rules + texts(edns@));
        },
        None => {
            assert(texts(hosts@) =~= from_rules + Seq::<Seq<char>>::empty());
        },
    }
    let hosts = unique_texts(hosts);
    if hosts.len() == 0 {
        return Some(
            Ok(
                IngressOutcome::Status(
                    Status::Invalid(String::from_str("The Ingress does not contain hosts information")),
                ),
            ),
        );
    }
    let mut secret_name = name.clone();
    secret_name.append("-tls");
    let tls = vec![IngressTls { hosts: Some(hosts), secret_name: Some(secret_name) }];
    let mut target = ingress.duplicate();
    let mut annotations = match target.annotations {
        Some(a) => a,
        None => Vec::new(),
    };
    assert(pairs(annotations@) == match ingress@.annotations {
        Some(l) => l,
        None => Seq::empty(),
    });
    let ghost tls_view = tls@.map_values(|x: IngressTls| x@);
    let spec_copy = match target.spec {
        Some(sp) => IngressSpec { tls: Some(tls), ..sp },
        None => IngressSpec { ingress_class_name: None, rules: None, tls: None },
    };
    patch_annotations(&mut annotations, &ic, ns.as_str(), conf);
    let result = Ingress {
        name: target.name,
        namespace: target.namespace,
        annotations: Some(annotations),
        spec: Some(spec_copy),
    };
    proof {
        assert(tls_view =~= seq![
            IngressTlsView {
                hosts: Some(ingress_hosts(ingress@)),
                secret_name: Some(ingress@.name->0 + "-tls"@),
            },
        ]);
    }
    Some(Ok(IngressOutcome::Patched(result)))
}

} // verus!
