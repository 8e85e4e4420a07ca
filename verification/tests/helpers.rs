use pkw::helpers::{
    does_parentref_listener_match, get_external_dns_hostname, get_skip, is_redirect_or_no_rule,
    join, patch_annotations, FilterType, HttpRoute, PathMatch, PathMatchType, RedirectScheme,
    RequestRedirect, RouteFilter, RouteMatch, RouteRule,
    selectors_text, CertManagerConfig, ControlFlow, DenyReason, HelperError, IngressTlsConfig,
    Issuer, Listener, ObjectName, ParentRef, Parted, SelectorByLabel, SelectorRequirement, Status,
    StatusAdmissionResponse, SupportedIngressClass,
};
use pkw::ingress::{mutate_ingress, validate_ingress, Ingress, IngressOutcome, IngressSpec, IngressTls};
use pkw::text::split_text;
use pkw::types::Contains;

fn s(x: &str) -> String {
    x.to_string()
}

fn ann(pairs: &[(&str, &str)]) -> Option<Vec<(String, String)>> {
    Some(pairs.iter().map(|(k, v)| (s(k), s(v))).collect())
}

#[test]
fn parted_as_ref_borrows_both_halves() {
    let p = Parted { good: vec![1], bad: vec![2, 3] };
    let r = p.as_ref();
    assert_eq!(r.good, &vec![1]);
    assert_eq!(r.bad.len(), 2);
}

#[test]
fn ingress_classes_ignore_case() {
    assert_eq!(SupportedIngressClass::from_str("Traefik"), Ok(SupportedIngressClass::Traefik));
    assert_eq!(SupportedIngressClass::from_str("NGINX"), Ok(SupportedIngressClass::Nginx));
    assert_eq!(SupportedIngressClass::from_str("haproxy"), Err(HelperError::UnsupportedIngressClass));
    // the Kelvin sign lower-cases to `k`
    assert_eq!(SupportedIngressClass::from_str("TRAEFI\u{212A}"), Ok(SupportedIngressClass::Traefik));
}

#[test]
fn selectors_as_text() {
    let cases = vec![
        (SelectorByLabel::Is(s("a"), s("1")), "a=1"),
        (SelectorByLabel::IsNot(s("a"), s("1")), "a!=1"),
        (SelectorByLabel::In(s("env"), vec![s("dev"), s("prod")]), "env in (dev,prod)"),
        (SelectorByLabel::NotIn(s("env"), vec![]), "env notin ()"),
        (SelectorByLabel::Exists(s("x")), "x"),
        (SelectorByLabel::DoesNotExist(s("x")), "!x"),
    ];
    for (sel, text) in &cases {
        assert_eq!(sel.to_selector_string(), *text);
    }
    let all: Vec<SelectorByLabel> = cases.into_iter().map(|(x, _)| x).collect();
    assert_eq!(selectors_text(&all), "a=1,a!=1,env in (dev,prod),env notin (),x,!x");
    assert!(matches!(SelectorByLabel::from_pair(s("k"), s("v")), SelectorByLabel::Is(k, v) if k == "k" && v == "v"));
}

#[test]
fn selector_requirements_convert() {
    let req = |op: &str, values: Option<Vec<String>>| SelectorRequirement { key: s("k"), operator: s(op), values };
    assert!(matches!(SelectorByLabel::try_from(req("In", Some(vec![s("a")]))), Ok(SelectorByLabel::In(_, v)) if v == vec![s("a")]));
    assert!(matches!(SelectorByLabel::try_from(req("NotIn", Some(vec![]))), Ok(SelectorByLabel::NotIn(_, _))));
    assert!(matches!(SelectorByLabel::try_from(req("Exists", None)), Ok(SelectorByLabel::Exists(_))));
    assert!(matches!(SelectorByLabel::try_from(req("DoesNotExist", Some(vec![]))), Ok(SelectorByLabel::DoesNotExist(_))));
    assert!(matches!(SelectorByLabel::try_from(req("In", None)), Err(HelperError::MissingValues)));
    assert!(matches!(SelectorByLabel::try_from(req("NotIn", None)), Err(HelperError::MissingValues)));
    assert!(matches!(SelectorByLabel::try_from(req("in", None)), Err(HelperError::InvalidOperator)));
}

#[test]
fn text_helpers() {
    assert_eq!(split_text("a,,b,", ','), vec![s("a"), s(""), s("b"), s("")]);
    assert_eq!(split_text("", ','), vec![s("")]);
    assert!(matches!(Contains::keyword("iNtErSeCt"), Some(Contains::Intersect)));
    assert!(Contains::keyword("contaiN\u{e9}").is_none());
    assert_eq!(join(&vec![s("x"), s("y"), s("z")], ", "), "x, y, z");
    assert_eq!(join(&vec![], ","), "");
}

#[test]
fn annotations_are_read() {
    assert_eq!(get_skip(&ann(&[("ingress-tls.magiclouds.cn/skip", "true")])), Some(&s("true")));
    assert_eq!(get_skip(&ann(&[("other", "true")])), None);
    assert_eq!(get_skip(&None), None);
    let hosts = get_external_dns_hostname(&ann(&[("external-dns.alpha.kubernetes.io/hostname", "a.com,.b.com,c.org")]));
    assert_eq!(hosts, Some(vec![s("a.com"), s("*.b.com"), s("c.org")]));
    assert_eq!(get_external_dns_hostname(&ann(&[])), None);
}

#[test]
fn annotations_are_added_but_never_changed() {
    let conf = IngressTlsConfig {
        cma: Some(CertManagerConfig { group: Some(s("cert-manager.io")), kind: None, issuer: Issuer::Clustered(s("letsencrypt")) }),
        traefik_ingress_redirect_resource_name: Some(s("infra/redirect")),
    };
    let mut a = vec![(s("cert-manager.io/issuer-group"), s("mine"))];
    patch_annotations(&mut a, &Ok(SupportedIngressClass::Traefik), "web", &conf);
    assert_eq!(a, vec![
        (s("cert-manager.io/issuer-group"), s("mine")),
        (s("cert-manager.io/cluster-issuer"), s("letsencrypt")),
        (s("traefik.ingress.kubernetes.io/router.middlewares"), s("infra-redirect@kubernetescrd")),
    ]);
    let conf = IngressTlsConfig {
        cma: Some(CertManagerConfig { group: None, kind: Some(s("Issuer")), issuer: Issuer::Namespaced(s("local")) }),
        traefik_ingress_redirect_resource_name: Some(s("redirect")),
    };
    let mut a = vec![];
    patch_annotations(&mut a, &Ok(SupportedIngressClass::Traefik), "web", &conf);
    assert_eq!(a, vec![
        (s("cert-manager.io/issuer-kind"), s("Issuer")),
        (s("cert-manager.io/issuer"), s("local")),
        (s("traefik.ingress.kubernetes.io/router.middlewares"), s("web-redirect@kubernetescrd")),
    ]);
    let mut a = vec![];
    patch_annotations(&mut a, &Ok(SupportedIngressClass::Nginx), "web", &IngressTlsConfig { cma: None, traefik_ingress_redirect_resource_name: None });
    assert_eq!(a, vec![(s("nginx.ingress.kubernetes.io/force-ssl-redirect"), s("true"))]);
    let mut a = vec![];
    patch_annotations(&mut a, &Err(HelperError::UnsupportedIngressClass), "web", &IngressTlsConfig { cma: None, traefik_ingress_redirect_resource_name: Some(s("x")) });
    assert!(a.is_empty());
}

#[test]
fn parent_references_attach_to_listeners() {
    let l = Listener { name: s("http"), port: 80 };
    let p = |kind: Option<&str>, ns: Option<&str>, section: Option<&str>, port: Option<i32>| ParentRef {
        kind: kind.map(s), name: s("gw"), namespace: ns.map(s), section_name: section.map(s), port,
    };
    assert!(does_parentref_listener_match(&p(Some("Gateway"), None, None, None), &l, "gw", "routes", "routes"));
    assert!(!does_parentref_listener_match(&p(Some("Gateway"), None, None, None), &l, "gw", "infra", "routes"));
    assert!(does_parentref_listener_match(&p(Some("Gateway"), Some("infra"), Some("http"), Some(80)), &l, "gw", "infra", "routes"));
    assert!(!does_parentref_listener_match(&p(Some("Gateway"), Some("infra"), Some("https"), None), &l, "gw", "infra", "routes"));
    assert!(!does_parentref_listener_match(&p(Some("Gateway"), Some("infra"), None, Some(443)), &l, "gw", "infra", "routes"));
    assert!(!does_parentref_listener_match(&p(None, Some("infra"), None, None), &l, "gw", "infra", "routes"));
    assert!(!does_parentref_listener_match(&p(Some("Service"), Some("infra"), None, None), &l, "gw", "infra", "routes"));
    assert!(!does_parentref_listener_match(&p(Some("Gateway"), Some("infra"), None, None), &l, "other", "infra", "routes"));
}

#[test]
fn control_flow_goes_on_after_move_on_and_nothing() {
    let start = <Option<Result<Status, String>> as ControlFlow>::initialize_value();
    assert!(start.is_continue() && !start.is_break());
    assert!(matches!(start, Some(Ok(Status::MoveOn))));
    assert!(Option::<Result<Status, String>>::None.is_continue());
    assert!(Some(Ok::<Status, String>(Status::Allowed)).is_break());
    assert!(Some(Err::<Status, String>(s("boom"))).is_break());
    assert!(matches!(Status::from_outcome(None), Status::Invalid(m) if m == "Input does not contain enough information"));
    assert!(matches!(Status::from_outcome(Some(Err(s("e")))), Status::Denied(DenyReason::InternalError(m)) if m == "e"));
    assert!(matches!(Status::from_outcome(Some(Ok(Status::Allowed))), Status::Allowed));
}

#[test]
fn refusal_messages() {
    assert_eq!(DenyReason::IngressNoTLS.message(), "The Ingress does not contain a TLS configuration.");
    assert_eq!(DenyReason::GatewayNoTLSListener.message(), "The Gateway does not contain a TLS configuration.");
    assert_eq!(DenyReason::CannotInferenceMutation.message(), "There is not enough information to make the mutation");
    assert_eq!(DenyReason::InternalError(s("E")).message(), "Internal Error occurred.\nE");
    let n = |ns: Option<&str>, name: Option<&str>| ObjectName { namespace: ns.map(s), name: name.map(s) };
    let routes = DenyReason::GatewayNonRedirectHTTPRouteAttachedToHTTPListener(vec![
        Parted { good: vec![n(Some("x"), Some("ok"))], bad: vec![n(Some("a"), Some("r1")), n(None, Some("r2"))] },
        Parted { good: vec![], bad: vec![n(Some("a"), Some("r1")), n(Some("b"), None)] },
    ]);
    assert_eq!(routes.message(), "There are 3 non-redirect HTTPRoutes (listed below) attaching to HTTP listeners of this Gateway.\na/r1\nCLUSTERED/r2\nb/");
    let gws = DenyReason::HTTPRouteNonRedirectAttachedToHTTPListener(vec![n(Some("g"), Some("one")), n(Some("g"), Some("two"))]);
    assert_eq!(gws.message(), "This non-redirect HTTPRoute is attaching to HTTP listeners of Gateways: g/one\ng/two");
    let many: Vec<ObjectName> = (0..12).map(|i| n(Some("a"), Some(&format!("r{i}")))).collect();
    let msg = DenyReason::GatewayNonRedirectHTTPRouteAttachedToHTTPListener(vec![Parted { good: vec![], bad: many }]).message();
    assert!(msg.starts_with("There are 12 non-redirect"));
}

#[test]
fn admission_answers() {
    let r = StatusAdmissionResponse::new(Status::Allowed, &s("ns"), &s("n"));
    assert_eq!(r.refusal(), None);
    let r = StatusAdmissionResponse::new(Status::MoveOn, &s("ns"), &s("n"));
    assert_eq!(r.refusal(), None);
    let r = StatusAdmissionResponse::new(Status::Denied(DenyReason::IngressNoTLS), &s("ns"), &s("n"));
    assert_eq!(r.refusal(), Some(s("ns/n: The Ingress does not contain a TLS configuration.")));
    let r = StatusAdmissionResponse::new(Status::Invalid(s("bad")), &s("ns"), &s("n"));
    assert_eq!(r.refusal(), Some(s("ns/n: bad")));
}

fn ingress(annotations: Option<Vec<(String, String)>>, class: Option<&str>, hosts: Option<Vec<Option<&str>>>, tls: Option<Vec<IngressTls>>) -> Ingress {
    Ingress {
        name: Some(s("web")),
        namespace: Some(s("prod")),
        annotations,
        spec: Some(IngressSpec {
            ingress_class_name: class.map(s),
            rules: hosts.map(|h| h.into_iter().map(|x| x.map(s)).collect()),
            tls,
        }),
    }
}

#[test]
fn ingress_validation() {
    let skip = ann(&[("ingress-tls.magiclouds.cn/skip", "true")]);
    assert!(matches!(validate_ingress(&ingress(skip, None, None, None)), Some(Ok(Status::Allowed))));
    let keep = ann(&[("ingress-tls.magiclouds.cn/skip", "false")]);
    assert!(matches!(validate_ingress(&ingress(keep, None, None, None)), Some(Ok(Status::Denied(DenyReason::IngressNoTLS)))));
    assert!(matches!(validate_ingress(&ingress(None, None, None, Some(vec![]))), Some(Ok(Status::Denied(DenyReason::IngressNoTLS)))));
    let tls = vec![IngressTls { hosts: None, secret_name: None }];
    assert!(matches!(validate_ingress(&ingress(None, None, None, Some(tls))), Some(Ok(Status::MoveOn))));
    let mut no_spec = ingress(None, None, None, None);
    no_spec.spec = None;
    assert!(validate_ingress(&no_spec).is_none());
}

#[test]
fn ingress_mutation_adds_tls() {
    let conf = IngressTlsConfig { cma: Some(CertManagerConfig { group: None, kind: None, issuer: Issuer::Namespaced(s("ca")) }), traefik_ingress_redirect_resource_name: None };
    let a = ann(&[("external-dns.alpha.kubernetes.io/hostname", "b.com,.c.com,a.com")]);
    let ing = ingress(a, Some("nginx"), Some(vec![Some("a.com"), None, Some("b.com")]), None);
    match mutate_ingress(&ing, &conf) {
        Some(Ok(IngressOutcome::Patched(t))) => {
            let spec = t.spec.unwrap();
            let tls = spec.tls.unwrap();
            assert_eq!(tls.len(), 1);
            assert_eq!(tls[0].hosts, Some(vec![s("a.com"), s("b.com"), s("*.c.com")]));
            assert_eq!(tls[0].secret_name, Some(s("web-tls")));
            assert_eq!(t.annotations.unwrap(), vec![
                (s("external-dns.alpha.kubernetes.io/hostname"), s("b.com,.c.com,a.com")),
                (s("cert-manager.io/issuer"), s("ca")),
                (s("nginx.ingress.kubernetes.io/force-ssl-redirect"), s("true")),
            ]);
        }
        _ => panic!(),
    }
    let empty = ingress(None, Some("nginx"), Some(vec![None]), None);
    assert!(matches!(mutate_ingress(&empty, &conf), Some(Ok(IngressOutcome::Status(Status::Invalid(m)))) if m == "The Ingress does not contain hosts information"));
    let no_class = ingress(None, None, Some(vec![Some("a.com")]), None);
    assert!(mutate_ingress(&no_class, &conf).is_none());
    let skip = ann(&[("ingress-tls.magiclouds.cn/skip", "true")]);
    assert!(matches!(mutate_ingress(&ingress(skip, Some("nginx"), None, None), &conf), Some(Ok(IngressOutcome::Status(Status::Allowed)))));
}

fn https_redirect_rule() -> RouteRule {
    RouteRule {
        matches: Some(vec![RouteMatch {
            path: Some(PathMatch { match_type: Some(PathMatchType::PathPrefix), value: Some(s("/")) }),
            other_conditions: false,
        }]),
        filters: Some(vec![RouteFilter {
            filter_type: FilterType::RequestRedirect,
            request_redirect: Some(RequestRedirect {
                scheme: Some(RedirectScheme::Https),
                status_code: Some(302),
                other_settings: false,
            }),
            other_settings: false,
        }]),
        other_settings: false,
    }
}

#[test]
fn routes_without_rules_or_with_only_the_https_redirect() {
    assert!(is_redirect_or_no_rule(&HttpRoute { rules: None }));
    assert!(is_redirect_or_no_rule(&HttpRoute { rules: Some(vec![]) }));
    assert!(is_redirect_or_no_rule(&HttpRoute { rules: Some(vec![https_redirect_rule()]) }));
    assert!(!is_redirect_or_no_rule(&HttpRoute {
        rules: Some(vec![https_redirect_rule(), https_redirect_rule()])
    }));

    let mut backend = https_redirect_rule();
    backend.other_settings = true;
    assert!(!is_redirect_or_no_rule(&HttpRoute { rules: Some(vec![backend]) }));

    let mut moved = https_redirect_rule();
    if let Some(fs) = moved.filters.as_mut() {
        if let Some(rr) = fs[0].request_redirect.as_mut() {
            rr.status_code = Some(301);
        }
    }
    assert!(!is_redirect_or_no_rule(&HttpRoute { rules: Some(vec![moved]) }));

    let mut plain = https_redirect_rule();
    if let Some(fs) = plain.filters.as_mut() {
        if let Some(rr) = fs[0].request_redirect.as_mut() {
            rr.scheme = Some(RedirectScheme::Http);
        }
    }
    assert!(!is_redirect_or_no_rule(&HttpRoute { rules: Some(vec![plain]) }));

    let mut sub_path = https_redirect_rule();
    if let Some(ms) = sub_path.matches.as_mut() {
        ms[0].path = Some(PathMatch { match_type: Some(PathMatchType::PathPrefix), value: Some(s("/api")) });
    }
    assert!(!is_redirect_or_no_rule(&HttpRoute { rules: Some(vec![sub_path]) }));

    let mut exact = https_redirect_rule();
    if let Some(ms) = exact.matches.as_mut() {
        ms[0].path = Some(PathMatch { match_type: Some(PathMatchType::Exact), value: Some(s("/")) });
    }
    assert!(!is_redirect_or_no_rule(&HttpRoute { rules: Some(vec![exact]) }));

    let mut rewrite = https_redirect_rule();
    if let Some(fs) = rewrite.filters.as_mut() {
        fs[0].filter_type = FilterType::UrlRewrite;
    }
    assert!(!is_redirect_or_no_rule(&HttpRoute { rules: Some(vec![rewrite]) }));
}

#[test]
fn patching_twice_is_patching_once() {
    let conf = IngressTlsConfig {
        cma: Some(CertManagerConfig { group: Some(s("g")), kind: Some(s("k")), issuer: Issuer::Namespaced(s("i")) }),
        traefik_ingress_redirect_resource_name: Some(s("redirect")),
    };
    let mut a = vec![(s("other"), s("x"))];
    patch_annotations(&mut a, &Ok(SupportedIngressClass::Traefik), "web", &conf);
    let once = a.clone();
    patch_annotations(&mut a, &Ok(SupportedIngressClass::Traefik), "web", &conf);
    assert_eq!(a, once);
    assert_eq!(once.len(), 5);
}

#[test]
fn lower_case_class_names() {
    assert_eq!(SupportedIngressClass::from_lowercase("nginx"), Ok(SupportedIngressClass::Nginx));
    assert_eq!(SupportedIngressClass::from_lowercase("traefik"), Ok(SupportedIngressClass::Traefik));
    assert_eq!(SupportedIngressClass::from_lowercase("Nginx"), Err(HelperError::UnsupportedIngressClass));
    assert_eq!(SupportedIngressClass::from_str("TRAEFIK"), Ok(SupportedIngressClass::Traefik));
}
