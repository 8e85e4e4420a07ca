//! Helpers for the TLS admission checks of Ingresses and Gateway API routes:
//! ingress classes, certificate issuers, namespace label selectors, the
//! outcome of a chain of checks, and the annotations they read and write.
use vstd::prelude::*;

use crate::text::{find_char, find_char_index, piece, split_char, split_text, same_text, lemma_find_char};

verus! {

pub const SKIP_ANNOTATION: &'static str = "ingress-tls.magiclouds.cn/skip";

pub const TRAEFIK_MIDDLEWARE_ANNOTATION: &'static str = "traefik.ingress.kubernetes.io/router.middlewares";

pub const NGINX_FORCE_SSL_REDIRECT: &'static str = "nginx.ingress.kubernetes.io/force-ssl-redirect";

pub const ISSUER: &'static str = "cert-manager.io/issuer";

pub const CLUSTER_ISSUER: &'static str = "cert-manager.io/cluster-issuer";

pub const ISSUER_KIND: &'static str = "cert-manager.io/issuer-kind";

pub const ISSUER_GROUP: &'static str = "cert-manager.io/issuer-group";

pub const EXTERNAL_DNS_HOSTNAME: &'static str = "external-dns.alpha.kubernetes.io/hostname";

// ---------------------------------------------------------------------------
// A pair of collections: those that passed and those that did not
// ---------------------------------------------------------------------------

/// Things split in two: the good ones and the bad ones.
#[derive(Debug)]
pub struct Parted<T> {
    pub good: T,
    pub bad: T,
}

impl<T> Parted<T> {
    /// Both halves, borrowed.
    pub fn as_ref(&self) -> (r: Parted<&T>)
        ensures
            *r.good == self.good,
            *r.bad == self.bad,
    {
        Parted { good: &self.good, bad: &self.bad }
    }
}

// ---------------------------------------------------------------------------
// Ingress classes
// ---------------------------------------------------------------------------

/// The ingress controllers whose annotations are known.
#[derive(Debug, PartialEq, Eq, Structural, Clone, Copy)]
pub enum SupportedIngressClass {
    Traefik,
    Nginx,
}

/// The text `str::to_lowercase` makes of `s`: Unicode lower case.
pub uninterp spec fn unicode_lowercase(s: Seq<char>) -> Seq<char>;

/// `str::to_lowercase`.  Its documentation defines the result by the Unicode
/// `Lowercase` property, over pages; the contract names it, a function of the
/// text alone (no locale is involved).
#[verifier::external_body]
fn to_lowercase(s: &str) -> (r: String)
    ensures
        r@ == unicode_lowercase(s@),
{
    s.to_lowercase()
}

/// Why a helper refused its input.
#[derive(Debug, PartialEq, Eq, Structural, Clone, Copy)]
pub enum HelperError {
    /// An ingress class other than `traefik` and `nginx`.
    UnsupportedIngressClass,
    /// A selector operator that needs values came without them.
    MissingValues,
    /// A selector operator that is not known.
    InvalidOperator,
}

/// The ingress class a lower-cased name stands for.
pub open spec fn ingress_class_from_lowercase(l: Seq<char>) -> Option<SupportedIngressClass> {
    if l == "traefik"@ {
        Some(SupportedIngressClass::Traefik)
    } else if l == "nginx"@ {
        Some(SupportedIngressClass::Nginx)
    } else {
        None
    }
}

/// The ingress class a name stands for, case aside.
pub open spec fn ingress_class_from_text(s: Seq<char>) -> Option<SupportedIngressClass> {
    ingress_class_from_lowercase(unicode_lowercase(s))
}

impl SupportedIngressClass {
    /// Reads an ingress class name already in lower case.
    pub fn from_lowercase(l: &str) -> (r: Result<SupportedIngressClass, HelperError>)
        ensures
            match ingress_class_from_lowercase(l@) {
                Some(c) => r == Ok::<SupportedIngressClass, HelperError>(c),
                None => r == Err::<SupportedIngressClass, HelperError>(
                    HelperError::UnsupportedIngressClass,
                ),
            },
    {
        if same_text(l, "traefik") {
            Ok(SupportedIngressClass::Traefik)
        } else if same_text(l, "nginx") {
            Ok(SupportedIngressClass::Nginx)
        } else {
            Err(HelperError::UnsupportedIngressClass)
        }
    }

    /// Reads an ingress class name.
    pub fn from_str(s: &str) -> (r: Result<SupportedIngressClass, HelperError>)
        ensures
            match ingress_class_from_text(s@) {
                Some(c) => r == Ok::<SupportedIngressClass, HelperError>(c),
                None => r == Err::<SupportedIngressClass, HelperError>(
                    HelperError::UnsupportedIngressClass,
                ),
            },
    {
        let l = to_lowercase(s);
        SupportedIngressClass::from_lowercase(l.as_str())
    }
}

/// The cert-manager issuer that signs the certificates.
#[derive(Debug)]
pub enum Issuer {
    Namespaced(String),
    Clustered(String),
}

/// The namespaces to look at: all of them, or those listed.
#[derive(Debug)]
pub enum Namespaces {
    All,
    Listed(Vec<String>),
}

// ---------------------------------------------------------------------------
// Label selectors on namespaces
// ---------------------------------------------------------------------------

/// One requirement of a label selector.
#[derive(Debug)]
pub enum SelectorByLabel {
    Is(String, String),
    IsNot(String, String),
    In(String, Vec<String>),
    NotIn(String, Vec<String>),
    Exists(String),
    DoesNotExist(String),
}

/// A label-selector requirement as the Gateway API writes it: a key, an
/// operator and, for some operators, values.
#[derive(Debug)]
pub struct SelectorRequirement {
    pub key: String,
    pub operator: String,
    pub values: Option<Vec<String>>,
}

/// The pieces of `ss` with `sep` between each two of them.
pub open spec fn join_spec(ss: Seq<Seq<char>>, sep: Seq<char>) -> Seq<char>
    decreases ss.len(),
{
    if ss.len() == 0 {
        Seq::empty()
    } else if ss.len() == 1 {
        ss[0]
    } else {
        join_spec(ss.drop_last(), sep) + sep + ss.last()
    }
}

pub open spec fn texts(v: Seq<String>) -> Seq<Seq<char>> {
    v.map_values(|s: String| s@)
}

/// The strings of `v` joined with `sep`.
pub fn join(v: &Vec<String>, sep: &str) -> (r: String)
    ensures
        r@ == join_spec(texts(v@), sep@),
{
    let mut out = String::new();
    let mut i: usize = 0;
    while i < v.len()
        invariant
            i <= v.len(),
            out@ == join_spec(texts(v@).take(i as int), sep@),
        decreases v.len() - i,
    {
        proof {
            assert(texts(v@).take(i + 1).drop_last() =~= texts(v@).take(i as int));
            assert(texts(v@).take(i + 1).last() == v@[i as int]@);
        }
        if i > 0 {
            out.append(sep);
        } else {
            assert(texts(v@).take(1) =~= seq![v@[0]@]);
        }
        out.append(v[i].as_str());
        i = i + 1;
    }
    assert(texts(v@).take(i as int) =~= texts(v@));
    out
}

/// The text of a requirement as a Kubernetes label selector writes it.
pub open spec fn selector_text(s: SelectorByLabel) -> Seq<char> {
    match s {
        SelectorByLabel::In(k, v) => k@ + " in ("@ + join_spec(texts(v@), ","@) + ")"@,
        SelectorByLabel::NotIn(k, v) => k@ + " notin ("@ + join_spec(texts(v@), ","@) + ")"@,
        SelectorByLabel::Exists(k) => k@,
        SelectorByLabel::DoesNotExist(k) => "!"@ + k@,
        SelectorByLabel::Is(k, v) => k@ + "="@ + v@,
        SelectorByLabel::IsNot(k, v) => k@ + "!="@ + v@,
    }
}

/// The requirement a selector expression states.
pub open spec fn selector_from_requirement(value: SelectorRequirement) -> Result<
    SelectorByLabel,
    HelperError,
> {
    let op = value.operator@;
    if op == "In"@ {
        match value.values {
            Some(vs) => Ok(SelectorByLabel::In(value.key, vs)),
            None => Err(HelperError::MissingValues),
        }
    } else if op == "NotIn"@ {
        match value.values {
            Some(vs) => Ok(SelectorByLabel::NotIn(value.key, vs)),
            None => Err(HelperError::MissingValues),
        }
    } else if op == "Exists"@ {
        Ok(SelectorByLabel::Exists(value.key))
    } else if op == "DoesNotExist"@ {
        Ok(SelectorByLabel::DoesNotExist(value.key))
    } else {
        Err(HelperError::InvalidOperator)
    }
}

impl SelectorByLabel {
    /// The requirement as a label selector writes it.
    pub fn to_selector_string(&self) -> (r: String)
        ensures
            r@ == selector_text(*self),
    {
        match self {
            SelectorByLabel::In(k, v) => {
                let mut out = k.clone();
                out.append(" in (");
                out.append(join(v, ",").as_str());
                out.append(")");
                out
            },
            SelectorByLabel::NotIn(k, v) => {
                let mut out = k.clone();
                out.append(" notin (");
                out.append(join(v, ",").as_str());
                out.append(")");
                out
            },
            SelectorByLabel::Exists(k) => k.clone(),
            SelectorByLabel::DoesNotExist(k) => {
                let mut out = String::from_str("!");
                out.append(k.as_str());
                out
            },
            SelectorByLabel::Is(k, v) => {
                let mut out = k.clone();
                out.append("=");
                out.append(v.as_str());
                out
            },
            SelectorByLabel::IsNot(k, v) => {
                let mut out = k.clone();
                out.append("!=");
                out.append(v.as_str());
                out
            },
        }
    }

    /// The requirement that a label has a value.
    pub fn from_pair(key: String, value: String) -> (r: SelectorByLabel)
        ensures
            r == SelectorByLabel::Is(key, value),
    {
        SelectorByLabel::Is(key, value)
    }

    /// The requirement a Gateway API selector expression states: `In` and
    /// `NotIn` need values, `Exists` and `DoesNotExist` take none.
    pub fn try_from(value: SelectorRequirement) -> (r: Result<SelectorByLabel, HelperError>)
        ensures
            r == selector_from_requirement(value),
    {
        let op = value.operator.as_str();
        if same_text(op, "In") {
            match value.values {
                Some(vs) => Ok(SelectorByLabel::In(value.key, vs)),
                None => Err(HelperError::MissingValues),
            }
        } else if same_text(op, "NotIn") {
            match value.values {
                Some(vs) => Ok(SelectorByLabel::NotIn(value.key, vs)),
                None => Err(HelperError::MissingValues),
            }
        } else if same_text(op, "Exists") {
            Ok(SelectorByLabel::Exists(value.key))
        } else if same_text(op, "DoesNotExist") {
            Ok(SelectorByLabel::DoesNotExist(value.key))
        } else {
            Err(HelperError::InvalidOperator)
        }
    }
}

/// The label selector that requires all of `selectors`: their texts joined
/// with commas (the selector `filter_namespaces` lists namespaces with).
pub fn selectors_text(selectors: &Vec<SelectorByLabel>) -> (r: String)
    ensures
        r@ == join_spec(selectors@.map_values(|s: SelectorByLabel| selector_text(s)), ","@),
{
    let mut parts: Vec<String> = Vec::new();
    let mut i: usize = 0;
    while i < selectors.len()
        invariant
            i <= selectors.len(),
            parts.len() == i,
            forall|j: int| 0 <= j < i ==> #[trigger] parts@[j]@ == selector_text(selectors@[j]),
        decreases selectors.len() - i,
    {
        parts.push(selectors[i].to_selector_string());
        i = i + 1;
    }
    assert(texts(parts@) =~= selectors@.map_values(|s: SelectorByLabel| selector_text(s)));
    join(&parts, ",")
}

// ---------------------------------------------------------------------------
// Annotations
// ---------------------------------------------------------------------------

/// Annotations as pairs of texts.
pub open spec fn pairs(l: Seq<(String, String)>) -> Seq<(Seq<char>, Seq<char>)> {
    l.map_values(|p: (String, String)| (p.0@, p.1@))
}

/// The value of the first annotation named `key`.
pub open spec fn lookup(l: Seq<(Seq<char>, Seq<char>)>, key: Seq<char>) -> Option<Seq<char>>
    decreases l.len(),
{
    if l.len() == 0 {
        None
    } else if l[0].0 == key {
        Some(l[0].1)
    } else {
        lookup(l.drop_first(), key)
    }
}

/// The position of the first annotation named `key`.
fn find_annotation(l: &Vec<(String, String)>, key: &str) -> (r: Option<usize>)
    ensures
        match r {
            Some(i) => i < l.len() && lookup(pairs(l@), key@) == Some(l@[i as int].1@),
            None => lookup(pairs(l@), key@) is None,
        },
{
    let k = String::from_str(key);
    let ghost ps = pairs(l@);
    let mut i: usize = 0;
    assert(ps.skip(0) =~= ps);
    while i < l.len()
        invariant
            i <= l.len(),
            ps == pairs(l@),
            k@ == key@,
            lookup(ps, key@) == lookup(ps.skip(i as int), key@),
        decreases l.len() - i,
    {
        assert(ps.skip(i as int)[0] == (l@[i as int].0@, l@[i as int].1@));
        assert(ps.skip(i as int).drop_first() =~= ps.skip(i + 1));
        if l[i].0 == k {
            return Some(i);
        }
        i = i + 1;
    }
    None
}

/// The `skip` annotation of an object, if it has one.
pub fn get_skip(annotations: &Option<Vec<(String, String)>>) -> (r: Option<&String>)
    ensures
        match annotations {
            None => r is None,
            Some(l) => match r {
                Some(v) => lookup(pairs(l@), SKIP_ANNOTATION@) == Some(v@),
                None => lookup(pairs(l@), SKIP_ANNOTATION@) is None,
            },
        },
{
    match annotations {
        None => None,
        Some(l) => match find_annotation(l, SKIP_ANNOTATION) {
            Some(i) => Some(&l[i].1),
            None => None,
        },
    }
}

/// A host name from the external-dns annotation: one starting with `.`
/// stands for all subdomains and gets a leading `*`.
pub open spec fn dns_host(x: Seq<char>) -> Seq<char> {
    if x.len() > 0 && x[0] == '.' {
        seq!['*'] + x
    } else {
        x
    }
}

/// The host names the external-dns annotation lists, separated by commas.
pub open spec fn dns_hosts(v: Seq<char>) -> Seq<Seq<char>> {
    split_char(v, ',').map_values(|x: Seq<char>| dns_host(x))
}

/// The host names of an object's external-dns annotation, if it has one.
pub fn get_external_dns_hostname(annotations: &Option<Vec<(String, String)>>) -> (r: Option<
    Vec<String>,
>)
    ensures
        match annotations {
            None => r is None,
            Some(l) => match lookup(pairs(l@), EXTERNAL_DNS_HOSTNAME@) {
                None => r is None,
                Some(v) => r matches Some(hs) && texts(hs@) == dns_hosts(v),
            },
        },
{
    match annotations {
        None => None,
        Some(l) => match find_annotation(l, EXTERNAL_DNS_HOSTNAME) {
            None => None,
            Some(i) => {
                let pieces = split_text(l[i].1.as_str(), ',');
                let ghost ps = split_char(l@[i as int].1@, ',');
                let mut out: Vec<String> = Vec::new();
                let mut j: usize = 0;
                while j < pieces.len()
                    invariant
                        j <= pieces.len(),
                        texts(pieces@) == ps,
                        texts(out@) == ps.take(j as int).map_values(|x: Seq<char>| dns_host(x)),
                    decreases pieces.len() - j,
                {
                    let x = &pieces[j];
                    let host = if x.as_str().unicode_len() > 0 && x.as_str().get_char(0) == '.' {
                        let mut h = String::from_str("*");
                        h.append(x.as_str());
                        proof {
                            reveal_strlit("*");
                            assert(h@ =~= seq!['*'] + x@);
                        }
                        h
                    } else {
                        x.clone()
                    };
                    proof {
                        assert(ps[j as int] == x@);
                        assert(ps.take(j + 1).map_values(|x: Seq<char>| dns_host(x)) =~= ps.take(
                            j as int,
                        ).map_values(|x: Seq<char>| dns_host(x)).push(dns_host(x@)));
                    }
                    out.push(host);
                    assert(texts(out@) =~= ps.take(j + 1).map_values(|x: Seq<char>| dns_host(x)));
                    j = j + 1;
                }
                assert(ps.take(j as int) =~= ps);
                Some(out)
            },
        },
    }
}

/// `l` with the annotation `key: value` added unless one named `key` is there.
pub open spec fn or_insert(l: Seq<(Seq<char>, Seq<char>)>, key: Seq<char>, value: Seq<char>) -> Seq<
    (Seq<char>, Seq<char>),
> {
    if lookup(l, key) is Some {
        l
    } else {
        l.push((key, value))
    }
}

/// Adds the annotation `key: value` unless one named `key` is there.
pub fn insert_if_absent(annotations: &mut Vec<(String, String)>, key: &str, value: String)
    ensures
        pairs(final(annotations)@) == or_insert(pairs(old(annotations)@), key@, value@),
{
    match find_annotation(annotations, key) {
        Some(_) => {},
        None => {
            let ghost before = pairs(annotations@);
            annotations.push((String::from_str(key), value));
            assert(pairs(annotations@) =~= before.push((key@, value@)));
        },
    }
}

/// The cert-manager settings the annotations carry.
#[derive(Debug)]
pub struct CertManagerConfig {
    pub group: Option<String>,
    pub kind: Option<String>,
    pub issuer: Issuer,
}

/// What the Ingress mutation adds: cert-manager settings, and the Traefik
/// middleware (`namespace/name`, or a name in the Ingress's namespace) that
/// redirects to HTTPS.
#[derive(Debug)]
pub struct IngressTlsConfig {
    pub cma: Option<CertManagerConfig>,
    pub traefik_ingress_redirect_resource_name: Option<String>,
}

/// The Traefik middleware reference for `value` (`namespace/name`, or a
/// name in the namespace `ns`): `namespace-name@kubernetescrd`.
pub open spec fn traefik_middleware(value: Seq<char>, ns: Seq<char>) -> Seq<char> {
    match find_char(value, '/') {
        Some(i) => value.take(i) + "-"@ + value.skip(i + 1) + "@kubernetescrd"@,
        None => ns + "-"@ + value + "@kubernetescrd"@,
    }
}

/// The annotations after the cert-manager settings.
pub open spec fn with_cert_manager(
    l: Seq<(Seq<char>, Seq<char>)>,
    cma: Option<CertManagerConfig>,
) -> Seq<(Seq<char>, Seq<char>)> {
    match cma {
        None => l,
        Some(x) => {
            let l1 = match x.group {
                Some(g) => or_insert(l, ISSUER_GROUP@, g@),
                None => l,
            };
            let l2 = match x.kind {
                Some(k) => or_insert(l1, ISSUER_KIND@, k@),
                None => l1,
            };
            match x.issuer {
                Issuer::Namespaced(i) => or_insert(l2, ISSUER@, i@),
                Issuer::Clustered(i) => or_insert(l2, CLUSTER_ISSUER@, i@),
            }
        },
    }
}

/// The annotations an Ingress of class `ic` in namespace `ns` gets, none of
/// those already there being changed.
pub open spec fn patched_annotations(
    l: Seq<(Seq<char>, Seq<char>)>,
    ic: Result<SupportedIngressClass, HelperError>,
    ns: Seq<char>,
    conf: IngressTlsConfig,
) -> Seq<(Seq<char>, Seq<char>)> {
    let l1 = with_cert_manager(l, conf.cma);
    match ic {
        Ok(SupportedIngressClass::Traefik) => match conf.traefik_ingress_redirect_resource_name {
            Some(v) => or_insert(l1, TRAEFIK_MIDDLEWARE_ANNOTATION@, traefik_middleware(v@, ns)),
            None => l1,
        },
        Ok(SupportedIngressClass::Nginx) => or_insert(l1, NGINX_FORCE_SSL_REDIRECT@, "true"@),
        Err(_) => l1,
    }
}

proof fn lemma_lookup_push(l: Seq<(Seq<char>, Seq<char>)>, x: (Seq<char>, Seq<char>), key: Seq<char>)
    ensures
        lookup(l.push(x), key) == match lookup(l, key) {
            Some(v) => Some(v),
            None => if x.0 == key {
                Some(x.1)
            } else {
                None
            },
        },
    decreases l.len(),
{
    if l.len() > 0 {
        assert(l.push(x).drop_first() =~= l.drop_first().push(x));
        lemma_lookup_push(l.drop_first(), x, key);
    } else {
        assert(l.push(x).drop_first() =~= l);
    }
}

proof fn lemma_or_insert(l: Seq<(Seq<char>, Seq<char>)>, k: Seq<char>, v: Seq<char>, key: Seq<char>)
    ensures
        lookup(l, key) is Some ==> lookup(or_insert(l, k, v), key) == lookup(l, key),
        lookup(or_insert(l, k, v), k) is Some,
{
    lemma_lookup_push(l, (k, v), key);
    lemma_lookup_push(l, (k, v), k);
}

proof fn lemma_cert_manager(
    l: Seq<(Seq<char>, Seq<char>)>,
    cma: Option<CertManagerConfig>,
    key: Seq<char>,
)
    ensures
        lookup(l, key) is Some ==> lookup(with_cert_manager(l, cma), key) == lookup(l, key),
{
    match cma {
        None => {},
        Some(x) => {
            let l1 = match x.group {
                Some(g) => or_insert(l, ISSUER_GROUP@, g@),
                None => l,
            };
            let l2 = match x.kind {
                Some(k) => or_insert(l1, ISSUER_KIND@, k@),
                None => l1,
            };
            match x.group {
                Some(g) => lemma_or_insert(l, ISSUER_GROUP@, g@, key),
                None => {},
            }
            match x.kind {
                Some(k) => lemma_or_insert(l1, ISSUER_KIND@, k@, key),
                None => {},
            }
            match x.issuer {
                Issuer::Namespaced(i) => lemma_or_insert(l2, ISSUER@, i@, key),
                Issuer::Clustered(i) => lemma_or_insert(l2, CLUSTER_ISSUER@, i@, key),
            }
        },
    }
}

/// Patching an Ingress's annotations changes none of those already there,
/// and leaves an Nginx Ingress with the annotation that forces HTTPS.
pub proof fn law_annotations_only_added(
    l: Seq<(Seq<char>, Seq<char>)>,
    ic: Result<SupportedIngressClass, HelperError>,
    ns: Seq<char>,
    conf: IngressTlsConfig,
    key: Seq<char>,
)
    ensures
        lookup(l, key) is Some ==> lookup(patched_annotations(l, ic, ns, conf), key) == lookup(
            l,
            key,
        ),
        ic == Ok::<SupportedIngressClass, HelperError>(SupportedIngressClass::Nginx) ==> lookup(
            patched_annotations(l, ic, ns, conf),
            NGINX_FORCE_SSL_REDIRECT@,
        ) is Some,
{
    let l1 = with_cert_manager(l, conf.cma);
    lemma_cert_manager(l, conf.cma, key);
    match ic {
        Ok(SupportedIngressClass::Traefik) => match conf.traefik_ingress_redirect_resource_name {
            Some(v) => lemma_or_insert(l1, TRAEFIK_MIDDLEWARE_ANNOTATION@, traefik_middleware(v@, ns), key),
            None => {},
        },
        Ok(SupportedIngressClass::Nginx) => lemma_or_insert(l1, NGINX_FORCE_SSL_REDIRECT@, "true"@, key),
        Err(_) => {},
    }
}

/// Every annotation the cert-manager settings `cma` add is there.
pub open spec fn cert_manager_keys_present(
    l: Seq<(Seq<char>, Seq<char>)>,
    cma: Option<CertManagerConfig>,
) -> bool {
    match cma {
        None => true,
        Some(x) => {
            &&& (x.group is Some ==> lookup(l, ISSUER_GROUP@) is Some)
            &&& (x.kind is Some ==> lookup(l, ISSUER_KIND@) is Some)
            &&& match x.issuer {
                Issuer::Namespaced(_) => lookup(l, ISSUER@) is Some,
                Issuer::Clustered(_) => lookup(l, CLUSTER_ISSUER@) is Some,
            }
        },
    }
}

proof fn lemma_keys_kept(
    l: Seq<(Seq<char>, Seq<char>)>,
    k: Seq<char>,
    v: Seq<char>,
    cma: Option<CertManagerConfig>,
)
    requires
        cert_manager_keys_present(l, cma),
    ensures
        cert_manager_keys_present(or_insert(l, k, v), cma),
        lookup(or_insert(l, k, v), k) is Some,
{
    lemma_or_insert(l, k, v, ISSUER_GROUP@);
    lemma_or_insert(l, k, v, ISSUER_KIND@);
    lemma_or_insert(l, k, v, ISSUER@);
    lemma_or_insert(l, k, v, CLUSTER_ISSUER@);
}

proof fn lemma_cert_manager_adds(l: Seq<(Seq<char>, Seq<char>)>, cma: Option<CertManagerConfig>)
    ensures
        cert_manager_keys_present(with_cert_manager(l, cma), cma),
{
    match cma {
        None => {},
        Some(x) => {
            let l1 = match x.group {
                Some(g) => or_insert(l, ISSUER_GROUP@, g@),
                None => l,
            };
            let l2 = match x.kind {
                Some(k) => or_insert(l1, ISSUER_KIND@, k@),
                None => l1,
            };
            match x.group {
                Some(g) => lemma_or_insert(l, ISSUER_GROUP@, g@, ISSUER_GROUP@),
                None => {},
            }
            match x.kind {
                Some(k) => {
                    lemma_or_insert(l1, ISSUER_KIND@, k@, ISSUER_GROUP@);
                    lemma_or_insert(l1, ISSUER_KIND@, k@, ISSUER_KIND@);
                },
                None => {},
            }
            match x.issuer {
                Issuer::Namespaced(i) => {
                    lemma_or_insert(l2, ISSUER@, i@, ISSUER_GROUP@);
                    lemma_or_insert(l2, ISSUER@, i@, ISSUER_KIND@);
                    lemma_or_insert(l2, ISSUER@, i@, ISSUER@);
                },
                Issuer::Clustered(i) => {
                    lemma_or_insert(l2, CLUSTER_ISSUER@, i@, ISSUER_GROUP@);
                    lemma_or_insert(l2, CLUSTER_ISSUER@, i@, ISSUER_KIND@);
                    lemma_or_insert(l2, CLUSTER_ISSUER@, i@, CLUSTER_ISSUER@);
                },
            }
        },
    }
}

/// Patching the annotations a second time, with the same settings, changes
/// nothing more.
pub proof fn law_patching_twice_is_patching_once(
    l: Seq<(Seq<char>, Seq<char>)>,
    ic: Result<SupportedIngressClass, HelperError>,
    ns: Seq<char>,
    conf: IngressTlsConfig,
)
    ensures
        patched_annotations(patched_annotations(l, ic, ns, conf), ic, ns, conf)
            == patched_annotations(l, ic, ns, conf),
{
    let l1 = with_cert_manager(l, conf.cma);
    let p = patched_annotations(l, ic, ns, conf);
    lemma_cert_manager_adds(l, conf.cma);
    match ic {
        Ok(SupportedIngressClass::Traefik) => match conf.traefik_ingress_redirect_resource_name {
            Some(v) => lemma_keys_kept(
                l1,
                TRAEFIK_MIDDLEWARE_ANNOTATION@,
                traefik_middleware(v@, ns),
                conf.cma,
            ),
            None => {},
        },
        Ok(SupportedIngressClass::Nginx) => lemma_keys_kept(
            l1,
            NGINX_FORCE_SSL_REDIRECT@,
            "true"@,
            conf.cma,
        ),
        Err(_) => {},
    }
    assert(cert_manager_keys_present(p, conf.cma));
    assert(with_cert_manager(p, conf.cma) == p);
}

/// No two annotations have the same name.
pub open spec fn names_unique(l: Seq<(Seq<char>, Seq<char>)>) -> bool {
    forall|i: int, j: int| 0 <= i < j < l.len() ==> #[trigger] l[i].0 != #[trigger] l[j].0
}

proof fn lemma_lookup_none(l: Seq<(Seq<char>, Seq<char>)>, key: Seq<char>)
    requires
        lookup(l, key) is None,
    ensures
        forall|i: int| 0 <= i < l.len() ==> #[trigger] l[i].0 != key,
    decreases l.len(),
{
    if l.len() > 0 {
        lemma_lookup_none(l.drop_first(), key);
        assert forall|i: int| 0 <= i < l.len() implies #[trigger] l[i].0 != key by {
            if i > 0 {
                assert(l[i] == l.drop_first()[i - 1]);
            }
        }
    }
}

proof fn lemma_or_insert_unique(l: Seq<(Seq<char>, Seq<char>)>, k: Seq<char>, v: Seq<char>)
    requires
        names_unique(l),
    ensures
        names_unique(or_insert(l, k, v)),
{
    if lookup(l, k) is None {
        lemma_lookup_none(l, k);
        let m = l.push((k, v));
        assert forall|i: int, j: int| 0 <= i < j < m.len() implies #[trigger] m[i].0 != #[trigger] m[j].0 by {
            if j == l.len() {
                assert(m[i] == l[i]);
            } else {
                assert(m[i] == l[i] && m[j] == l[j]);
            }
        }
    }
}

/// Patching keeps the annotation names unique when they were.
pub proof fn law_patching_keeps_names_unique(
    l: Seq<(Seq<char>, Seq<char>)>,
    ic: Result<SupportedIngressClass, HelperError>,
    ns: Seq<char>,
    conf: IngressTlsConfig,
)
    requires
        names_unique(l),
    ensures
        names_unique(patched_annotations(l, ic, ns, conf)),
{
    let l1 = with_cert_manager(l, conf.cma);
    match conf.cma {
        None => {},
        Some(x) => {
            let a = match x.group {
                Some(g) => or_insert(l, ISSUER_GROUP@, g@),
                None => l,
            };
            let b = match x.kind {
                Some(k) => or_insert(a, ISSUER_KIND@, k@),
                None => a,
            };
            match x.group {
                Some(g) => lemma_or_insert_unique(l, ISSUER_GROUP@, g@),
                None => {},
            }
            match x.kind {
                Some(k) => lemma_or_insert_unique(a, ISSUER_KIND@, k@),
                None => {},
            }
            match x.issuer {
                Issuer::Namespaced(i) => lemma_or_insert_unique(b, ISSUER@, i@),
                Issuer::Clustered(i) => lemma_or_insert_unique(b, CLUSTER_ISSUER@, i@),
            }
        },
    }
    match ic {
        Ok(SupportedIngressClass::Traefik) => match conf.traefik_ingress_redirect_resource_name {
            Some(v) => lemma_or_insert_unique(l1, TRAEFIK_MIDDLEWARE_ANNOTATION@, traefik_middleware(v@, ns)),
            None => {},
        },
        Ok(SupportedIngressClass::Nginx) => lemma_or_insert_unique(l1, NGINX_FORCE_SSL_REDIRECT@, "true"@),
        Err(_) => {},
    }
}

proof fn lemma_or_insert_other(
    l: Seq<(Seq<char>, Seq<char>)>,
    k: Seq<char>,
    v: Seq<char>,
    key: Seq<char>,
)
    requires
        k != key,
    ensures
        lookup(or_insert(l, k, v), key) == lookup(l, key),
{
    lemma_lookup_push(l, (k, v), key);
}

proof fn lemma_cert_manager_keys_differ()
    ensures
        ISSUER_GROUP@ != TRAEFIK_MIDDLEWARE_ANNOTATION@,
        ISSUER_KIND@ != TRAEFIK_MIDDLEWARE_ANNOTATION@,
        ISSUER@ != TRAEFIK_MIDDLEWARE_ANNOTATION@,
        CLUSTER_ISSUER@ != TRAEFIK_MIDDLEWARE_ANNOTATION@,
{
    reveal_strlit("traefik.ingress.kubernetes.io/router.middlewares");
    reveal_strlit("cert-manager.io/issuer-group");
    reveal_strlit("cert-manager.io/issuer-kind");
    reveal_strlit("cert-manager.io/issuer");
    reveal_strlit("cert-manager.io/cluster-issuer");
    assert(ISSUER_GROUP@[0] != TRAEFIK_MIDDLEWARE_ANNOTATION@[0]);
    assert(ISSUER_KIND@[0] != TRAEFIK_MIDDLEWARE_ANNOTATION@[0]);
    assert(ISSUER@[0] != TRAEFIK_MIDDLEWARE_ANNOTATION@[0]);
    assert(CLUSTER_ISSUER@[0] != TRAEFIK_MIDDLEWARE_ANNOTATION@[0]);
}

/// A Traefik Ingress in namespace `ns` that has no middlewares annotation
/// gets the redirect middleware of its own namespace, `ns-n@kubernetescrd`,
/// for a redirect name `n` without `/`, whatever the cert-manager settings.
pub proof fn law_traefik_middleware_in_own_namespace(
    l: Seq<(Seq<char>, Seq<char>)>,
    ns: Seq<char>,
    conf: IngressTlsConfig,
    n: Seq<char>,
)
    requires
        conf.traefik_ingress_redirect_resource_name matches Some(v) && v@ == n,
        forall|j: int| 0 <= j < n.len() ==> n[j] != '/',
        lookup(l, TRAEFIK_MIDDLEWARE_ANNOTATION@) is None,
    ensures
        lookup(
            patched_annotations(l, Ok(SupportedIngressClass::Traefik), ns, conf),
            TRAEFIK_MIDDLEWARE_ANNOTATION@,
        ) == Some(ns + "-"@ + n + "@kubernetescrd"@),
{
    let key = TRAEFIK_MIDDLEWARE_ANNOTATION@;
    lemma_cert_manager_keys_differ();
    match conf.cma {
        None => {},
        Some(x) => {
            let a = match x.group {
                Some(g) => or_insert(l, ISSUER_GROUP@, g@),
                None => l,
            };
            let b = match x.kind {
                Some(k) => or_insert(a, ISSUER_KIND@, k@),
                None => a,
            };
            match x.group {
                Some(g) => lemma_or_insert_other(l, ISSUER_GROUP@, g@, key),
                None => {},
            }
            match x.kind {
                Some(k) => lemma_or_insert_other(a, ISSUER_KIND@, k@, key),
                None => {},
            }
            match x.issuer {
                Issuer::Namespaced(i) => lemma_or_insert_other(b, ISSUER@, i@, key),
                Issuer::Clustered(i) => lemma_or_insert_other(b, CLUSTER_ISSUER@, i@, key),
            }
        },
    }
    let l1 = with_cert_manager(l, conf.cma);
    assert(lookup(l1, key) is None);
    lemma_find_char(n, '/');
    assert(find_char(n, '/') is None);
    lemma_lookup_push(l1, (key, traefik_middleware(n, ns)), key);
}

fn clone_text(s: &str) -> (r: String)
    ensures
        r@ == s@,
{
    String::from_str(s)
}

/// Adds the annotations an Ingress of class `ic` in namespace `ns` needs.
pub fn patch_annotations(
    annotations: &mut Vec<(String, String)>,
    ic: &Result<SupportedIngressClass, HelperError>,
    ns: &str,
    conf: &IngressTlsConfig,
)
    ensures
        pairs(final(annotations)@) == patched_annotations(pairs(old(annotations)@), *ic, ns@, *conf),
{
    if let Some(x) = &conf.cma {
        if let Some(group) = &x.group {
            insert_if_absent(annotations, ISSUER_GROUP, group.clone());
        }
        if let Some(kind) = &x.kind {
            insert_if_absent(annotations, ISSUER_KIND, kind.clone());
        }
        match &x.issuer {
            Issuer::Namespaced(i) => insert_if_absent(annotations, ISSUER, i.clone()),
            Issuer::Clustered(i) => insert_if_absent(annotations, CLUSTER_ISSUER, i.clone()),
        }
    }
    match ic {
        Ok(SupportedIngressClass::Traefik) => {
            if let Some(value) = &conf.traefik_ingress_redirect_resource_name {
                let v = value.as_str();
                proof {
                    lemma_find_char(v@, '/');
                }
                let mut a = match find_char_index(v, '/') {
                    Some(i) => {
                        let n = v.unicode_len();
                        let mut a = piece(v, 0, i);
                        a.append("-");
                        a.append(piece(v, i + 1, n).as_str());
                        proof {
                            assert(v@.subrange(0, i as int) =~= v@.take(i as int));
                            assert(v@.subrange(i + 1, n as int) =~= v@.skip(i + 1));
                        }
                        a
                    },
                    None => {
                        let mut a = clone_text(ns);
                        a.append("-");
                        a.append(v);
                        a
                    },
                };
                a.append("@kubernetescrd");
                insert_if_absent(annotations, TRAEFIK_MIDDLEWARE_ANNOTATION, a);
            }
        },
        Ok(SupportedIngressClass::Nginx) => {
            insert_if_absent(annotations, NGINX_FORCE_SSL_REDIRECT, String::from_str("true"));
        },
        Err(_) => {},
    }
}

// ---------------------------------------------------------------------------
// Gateway API routes
// ---------------------------------------------------------------------------

/// What a route's parent reference says.
#[derive(Debug)]
pub struct ParentRef {
    pub kind: Option<String>,
    pub name: String,
    pub namespace: Option<String>,
    pub section_name: Option<String>,
    pub port: Option<i32>,
}

/// What a Gateway listener says.
#[derive(Debug)]
pub struct Listener {
    pub name: String,
    pub port: i32,
}

/// Whether the parent reference `p` of a route in namespace `hns` attaches it
/// to the listener `l` of the Gateway `gn` in namespace `gns`: it names that
/// Gateway (its namespace defaulting to the route's), and the listener's
/// name and port when it names them.
pub open spec fn parentref_matches(
    p: ParentRef,
    l: Listener,
    gn: Seq<char>,
    gns: Seq<char>,
    hns: Seq<char>,
) -> bool {
    &&& p.kind matches Some(k) && k@ == "Gateway"@
    &&& p.name@ == gn
    &&& (match p.namespace {
        Some(n) => n@,
        None => hns,
    }) == gns
    &&& (p.section_name matches Some(s) ==> s@ == l.name@)
    &&& (p.port matches Some(pp) ==> pp == l.port)
}

pub fn does_parentref_listener_match(
    p: &ParentRef,
    l: &Listener,
    gn: &str,
    gns: &str,
    hns: &str,
) -> (r: bool)
    ensures
        r == parentref_matches(*p, *l, gn@, gns@, hns@),
{
    let kind_ok = match &p.kind {
        Some(k) => same_text(k.as_str(), "Gateway"),
        None => false,
    };
    let ns = match &p.namespace {
        Some(n) => n.as_str(),
        None => hns,
    };
    let section_ok = match &p.section_name {
        Some(s) => *s == l.name,
        None => true,
    };
    let port_ok = match p.port {
        Some(pp) => pp == l.port,
        None => true,
    };
    kind_ok && same_text(p.name.as_str(), gn) && same_text(ns, gns) && section_ok && port_ok
}

/// How a route match compares the request path.
#[derive(Debug, PartialEq, Eq, Structural, Clone, Copy)]
pub enum PathMatchType {
    Exact,
    PathPrefix,
    RegularExpression,
}

/// The path condition of a route match.
#[derive(Debug)]
pub struct PathMatch {
    pub match_type: Option<PathMatchType>,
    pub value: Option<String>,
}

/// One match of a route rule: its path condition, and whether it also sets
/// any other condition (headers, a method, query parameters).
#[derive(Debug)]
pub struct RouteMatch {
    pub path: Option<PathMatch>,
    pub other_conditions: bool,
}

/// The scheme a redirect sends the client to.
#[derive(Debug, PartialEq, Eq, Structural, Clone, Copy)]
pub enum RedirectScheme {
    Http,
    Https,
}

/// A request redirect: its scheme and status code, and whether it also sets
/// any other part of the target (hostname, path, port).
#[derive(Debug)]
pub struct RequestRedirect {
    pub scheme: Option<RedirectScheme>,
    pub status_code: Option<i64>,
    pub other_settings: bool,
}

/// The kind of a route filter.
#[derive(Debug, PartialEq, Eq, Structural, Clone, Copy)]
pub enum FilterType {
    RequestHeaderModifier,
    ResponseHeaderModifier,
    RequestMirror,
    RequestRedirect,
    UrlRewrite,
    ExtensionRef,
}

/// A route filter: its kind, its redirect, and whether it sets any other
/// of its settings (header modifiers, mirror, rewrite, extension).
#[derive(Debug)]
pub struct RouteFilter {
    pub filter_type: FilterType,
    pub request_redirect: Option<RequestRedirect>,
    pub other_settings: bool,
}

/// A rule of an HTTP route: its matches and filters, and whether it sets
/// any other field (backends, name, timeouts, retries, session persistence).
#[derive(Debug)]
pub struct RouteRule {
    pub matches: Option<Vec<RouteMatch>>,
    pub filters: Option<Vec<RouteFilter>>,
    pub other_settings: bool,
}

/// What the TLS checks read of an HTTP route: its rules.
#[derive(Debug)]
pub struct HttpRoute {
    pub rules: Option<Vec<RouteRule>>,
}

/// The rule that sends every request (path prefix `/`) to HTTPS with a
/// `302`, and sets nothing else.
pub open spec fn is_https_redirect_rule(r: RouteRule) -> bool {
    &&& !r.other_settings
    &&& match r.matches {
        Some(ms) => ms@.len() == 1 && matches_every_path(ms@[0]),
        None => false,
    }
    &&& match r.filters {
        Some(fs) => fs@.len() == 1 && redirects_to_https(fs@[0]),
        None => false,
    }
}

/// A match on the path prefix `/` and on nothing else.
pub open spec fn matches_every_path(m: RouteMatch) -> bool {
    &&& !m.other_conditions
    &&& match m.path {
        Some(p) => p.match_type == Some(PathMatchType::PathPrefix) && match p.value {
            Some(v) => v@ == "/"@,
            None => false,
        },
        None => false,
    }
}

/// A redirect filter to HTTPS with a `302`, setting nothing else.
pub open spec fn redirects_to_https(f: RouteFilter) -> bool {
    &&& !f.other_settings
    &&& f.filter_type == FilterType::RequestRedirect
    &&& match f.request_redirect {
        Some(rr) => !rr.other_settings && rr.scheme == Some(RedirectScheme::Https)
            && rr.status_code == Some(302i64),
        None => false,
    }
}

/// A route with no rules, an empty list of rules, or the HTTPS redirect as
/// its one rule.
pub open spec fn redirect_or_no_rule(route: HttpRoute) -> bool {
    match route.rules {
        None => true,
        Some(rules) => rules@.len() == 0 || (rules@.len() == 1 && is_https_redirect_rule(
            rules@[0],
        )),
    }
}

fn is_https_redirect(r: &RouteRule) -> (b: bool)
    ensures
        b == is_https_redirect_rule(*r),
{
    if r.other_settings {
        return false;
    }
    let match_ok = match &r.matches {
        Some(ms) => {
            if ms.len() == 1 && !ms[0].other_conditions {
                match &ms[0].path {
                    Some(p) => {
                        let prefix = matches!(p.match_type, Some(PathMatchType::PathPrefix));
                        match &p.value {
                            Some(v) => prefix && same_text(v.as_str(), "/"),
                            None => false,
                        }
                    },
                    None => false,
                }
            } else {
                false
            }
        },
        None => false,
    };
    let filter_ok = match &r.filters {
        Some(fs) => {
            if fs.len() == 1 && !fs[0].other_settings && matches!(
                fs[0].filter_type,
                FilterType::RequestRedirect
            ) {
                match &fs[0].request_redirect {
                    Some(rr) => !rr.other_settings && matches!(
                        rr.scheme,
                        Some(RedirectScheme::Https)
                    ) && matches!(rr.status_code, Some(302i64)),
                    None => false,
                }
            } else {
                false
            }
        },
        None => false,
    };
    match_ok && filter_ok
}

/// Whether a route has no rules, or only the rule that redirects every
/// request to HTTPS.
pub fn is_redirect_or_no_rule(httproute: &HttpRoute) -> (r: bool)
    ensures
        r == redirect_or_no_rule(*httproute),
{
    match &httproute.rules {
        None => true,
        Some(rules) => rules.len() == 0 || (rules.len() == 1 && is_https_redirect(&rules[0])),
    }
}

// ---------------------------------------------------------------------------
// The outcome of a chain of checks
// ---------------------------------------------------------------------------

/// An object named by namespace and name, either of which may be missing.
#[derive(Debug)]
pub struct ObjectName {
    pub namespace: Option<String>,
    pub name: Option<String>,
}

/// Why an object is refused.
#[derive(Debug)]
pub enum DenyReason {
    /// Something went wrong inside the webhook; the error's report.
    InternalError(String),
    IngressNoTLS,
    GatewayNoTLSListener,
    /// For each HTTP listener of the Gateway, the routes attached to it, split
    /// into redirecting (good) and other (bad) routes.
    GatewayNonRedirectHTTPRouteAttachedToHTTPListener(Vec<Parted<Vec<ObjectName>>>),
    /// The Gateways whose HTTP listeners this non-redirecting route attaches to.
    HTTPRouteNonRedirectAttachedToHTTPListener(Vec<ObjectName>),
    CannotInferenceMutation,
}

/// Where a check chain stands.
#[derive(Debug)]
pub enum Status {
    /// Go on with the next check.
    MoveOn,
    Allowed,
    Denied(DenyReason),
    Invalid(String),
    /// Admit with this JSON patch (as a document).
    Patch(crate::json::JsonValue),
}

/// Keeps going through a chain of checks while the outcome says so.
pub trait ControlFlow: Sized {
    /// Whether the chain goes on after this outcome.
    spec fn continues(&self) -> bool;

    /// The outcome before any check.
    fn initialize_value() -> (r: Self)
        ensures
            r.continues(),
    ;

    fn is_continue(&self) -> (r: bool)
        ensures
            r == self.continues(),
    ;

    fn is_break(&self) -> (r: bool)
        ensures
            r == !self.continues(),
    {
        !self.is_continue()
    }
}

impl ControlFlow for Option<Result<Status, String>> {
    /// The chain goes on after "move on", and after a check that had too
    /// little to go by.
    open spec fn continues(&self) -> bool {
        match self {
            Some(Ok(Status::MoveOn)) => true,
            None => true,
            _ => false,
        }
    }

    fn initialize_value() -> (r: Self)
        ensures
            r == Some(Ok::<Status, String>(Status::MoveOn)),
    {
        Some(Ok(Status::MoveOn))
    }

    fn is_continue(&self) -> (r: bool) {
        match self {
            Some(Ok(Status::MoveOn)) => true,
            None => true,
            _ => false,
        }
    }
}

pub open spec fn no_information() -> Seq<char> {
    "Input does not contain enough information"@
}

impl Status {
    /// The outcome of a chain: its status, an internal error, or a refusal
    /// for want of information.
    pub fn from_outcome(value: Option<Result<Status, String>>) -> (r: Status)
        ensures
            match value {
                Some(Ok(s)) => r == s,
                Some(Err(e)) => r == Status::Denied(DenyReason::InternalError(e)),
                None => r matches Status::Invalid(m) && m@ == no_information(),
            },
    {
        match value {
            Some(Ok(s)) => s,
            Some(Err(e)) => Status::Denied(DenyReason::InternalError(e)),
            None => Status::Invalid(String::from_str("Input does not contain enough information")),
        }
    }
}

// ---------------------------------------------------------------------------
// Refusal messages
// ---------------------------------------------------------------------------

pub open spec fn digit_char(d: nat) -> char {
    (('0' as int) + d) as char
}

/// A number written in decimal.
pub open spec fn decimal_text(n: nat) -> Seq<char>
    decreases n,
{
    if n < 10 {
        seq![digit_char(n)]
    } else {
        decimal_text(n / 10) + seq![digit_char(n % 10)]
    }
}

fn digit_text(d: usize) -> (r: &'static str)
    requires
        d < 10,
    ensures
        r@ == seq![digit_char(d as nat)],
{
    proof {
        reveal_strlit("0");
        reveal_strlit("1");
        reveal_strlit("2");
        reveal_strlit("3");
        reveal_strlit("4");
        reveal_strlit("5");
        reveal_strlit("6");
        reveal_strlit("7");
        reveal_strlit("8");
        reveal_strlit("9");
    }
    match d {
        0 => "0",
        1 => "1",
        2 => "2",
        3 => "3",
        4 => "4",
        5 => "5",
        6 => "6",
        7 => "7",
        8 => "8",
        _ => "9",
    }
}

/// The number in decimal digits.
pub(crate) fn decimal(n: usize) -> (r: String)
    ensures
        r@ == decimal_text(n as nat),
    decreases n,
{
    if n < 10 {
        String::from_str(digit_text(n))
    } else {
        let mut s = decimal(n / 10);
        s.append(digit_text(n % 10));
        s
    }
}

pub open spec fn opt_text(s: Option<String>) -> Option<Seq<char>> {
    match s {
        Some(t) => Some(t@),
        None => None,
    }
}

/// What tells two named objects apart: their name and namespace.
pub open spec fn name_key(o: ObjectName) -> (Option<Seq<char>>, Option<Seq<char>>) {
    (opt_text(o.name), opt_text(o.namespace))
}

pub open spec fn name_keys(s: Seq<ObjectName>) -> Seq<(Option<Seq<char>>, Option<Seq<char>>)> {
    s.map_values(|o: ObjectName| name_key(o))
}

/// The first of each key, in order.
pub open spec fn first_occurrences<K>(s: Seq<K>) -> Seq<K>
    decreases s.len(),
{
    if s.len() == 0 {
        s
    } else {
        let prev = first_occurrences(s.drop_last());
        if s.drop_last().contains(s.last()) {
            prev
        } else {
            prev.push(s.last())
        }
    }
}

/// `Itertools::unique_by` keyed by name and namespace: its documentation
/// says it keeps, in order, the first item of each key.
#[verifier::external_body]
fn unique_by_name(v: Vec<ObjectName>) -> (r: Vec<ObjectName>)
    ensures
        name_keys(r@) == first_occurrences(name_keys(v@)),
{
    itertools::Itertools::unique_by(v.into_iter(), |x| (x.name.clone(), x.namespace.clone())).collect()
}

impl ObjectName {
    pub fn duplicate(&self) -> (r: ObjectName)
        ensures
            name_key(r) == name_key(*self),
    {
        let namespace = match &self.namespace {
            Some(n) => Some(n.clone()),
            None => None,
        };
        let name = match &self.name {
            Some(n) => Some(n.clone()),
            None => None,
        };
        ObjectName { namespace, name }
    }
}

/// How a refusal lists an object: `namespace/name`, a missing namespace
/// written `CLUSTERED`, a missing name left empty.
pub open spec fn label_of(k: (Option<Seq<char>>, Option<Seq<char>>)) -> Seq<char> {
    (match k.1 {
        Some(n) => n,
        None => "CLUSTERED"@,
    }) + "/"@ + (match k.0 {
        Some(n) => n,
        None => Seq::<char>::empty(),
    })
}

/// The non-redirecting routes of all listeners, one after the other.
pub open spec fn all_bad(v: Seq<Parted<Vec<ObjectName>>>) -> Seq<ObjectName>
    decreases v.len(),
{
    if v.len() == 0 {
        Seq::empty()
    } else {
        all_bad(v.drop_last()) + v.last().bad@
    }
}

/// The text a refusal gives.
pub open spec fn deny_message(d: DenyReason) -> Seq<char> {
    match d {
        DenyReason::InternalError(r) => "Internal Error occurred.\n"@ + r@,
        DenyReason::IngressNoTLS => "The Ingress does not contain a TLS configuration."@,
        DenyReason::GatewayNoTLSListener => "The Gateway does not contain a TLS configuration."@,
        DenyReason::GatewayNonRedirectHTTPRouteAttachedToHTTPListener(v) => {
            let ks = first_occurrences(name_keys(all_bad(v@)));
            "There are "@ + decimal_text(ks.len()) + " non-redirect HTTPRoutes (listed below) attaching to HTTP listeners of this Gateway.\n"@
                + join_spec(ks.map_values(|k: (Option<Seq<char>>, Option<Seq<char>>)| label_of(k)), "\n"@)
        },
        DenyReason::HTTPRouteNonRedirectAttachedToHTTPListener(v) =>
            "This non-redirect HTTPRoute is attaching to HTTP listeners of Gateways: "@ + join_spec(
            name_keys(v@).map_values(|k: (Option<Seq<char>>, Option<Seq<char>>)| label_of(k)),
            "\n"@,
        ),
        DenyReason::CannotInferenceMutation =>
            "There is not enough information to make the mutation"@,
    }
}

/// The labels of named objects.
fn labels(v: &Vec<ObjectName>) -> (r: Vec<String>)
    ensures
        texts(r@) == name_keys(v@).map_values(
            |k: (Option<Seq<char>>, Option<Seq<char>>)| label_of(k),
        ),
{
    let mut out: Vec<String> = Vec::new();
    let mut i: usize = 0;
    while i < v.len()
        invariant
            i <= v.len(),
            texts(out@) == name_keys(v@).take(i as int).map_values(
                |k: (Option<Seq<char>>, Option<Seq<char>>)| label_of(k),
            ),
        decreases v.len() - i,
    {
        let o = &v[i];
        let mut l = match &o.namespace {
            Some(n) => n.clone(),
            None => String::from_str("CLUSTERED"),
        };
        l.append("/");
        match &o.name {
            Some(n) => l.append(n.as_str()),
            None => {},
        }
        proof {
            assert(l@ =~= label_of(name_key(*o)));
            assert(name_keys(v@).take(i + 1).map_values(
                |k: (Option<Seq<char>>, Option<Seq<char>>)| label_of(k),
            ) =~= name_keys(v@).take(i as int).map_values(
                |k: (Option<Seq<char>>, Option<Seq<char>>)| label_of(k),
            ).push(label_of(name_key(*o))));
        }
        out.push(l);
        assert(texts(out@) =~= name_keys(v@).take(i + 1).map_values(
            |k: (Option<Seq<char>>, Option<Seq<char>>)| label_of(k),
        ));
        i = i + 1;
    }
    assert(name_keys(v@).take(i as int) =~= name_keys(v@));
    out
}

impl DenyReason {
    /// The text of the refusal.
    pub fn message(&self) -> (r: String)
        ensures
            r@ == deny_message(*self),
    {
        match self {
            DenyReason::InternalError(report) => {
                let mut m = String::from_str("Internal Error occurred.\n");
                m.append(report.as_str());
                m
            },
            DenyReason::IngressNoTLS => String::from_str(
                "The Ingress does not contain a TLS configuration.",
            ),
            DenyReason::GatewayNoTLSListener => String::from_str(
                "The Gateway does not contain a TLS configuration.",
            ),
            DenyReason::GatewayNonRedirectHTTPRouteAttachedToHTTPListener(listener_routes) => {
                let mut routes: Vec<ObjectName> = Vec::new();
                let mut i: usize = 0;
                while i < listener_routes.len()
                    invariant
                        i <= listener_routes.len(),
                        name_keys(routes@) == name_keys(all_bad(listener_routes@.take(i as int))),
                    decreases listener_routes.len() - i,
                {
                    let bad = listener_routes[i].as_ref().bad;
                    let mut j: usize = 0;
                    let ghost start = routes@;
                    while j < bad.len()
                        invariant
                            j <= bad.len(),
                            routes@.len() == start.len() + j,
                            forall|k: int| 0 <= k < start.len() ==> name_key(#[trigger] routes@[k]) == name_key(start[k]),
                            forall|k: int| 0 <= k < j ==> name_key(#[trigger] routes@[start.len() + k]) == name_key(bad@[k]),
                        decreases bad.len() - j,
                    {
                        routes.push(bad[j].duplicate());
                        j = j + 1;
                    }
                    proof {
                        assert(listener_routes@.take(i + 1).drop_last() =~= listener_routes@.take(i as int));
                        assert(listener_routes@.take(i + 1).last() == listener_routes@[i as int]);
                        assert forall|k: int| 0 <= k < routes@.len() implies name_keys(routes@)[k]
                            == (name_keys(start) + name_keys(bad@))[k] by {
                            if k >= start.len() {
                                let q = k - start.len();
                                assert(name_key(routes@[start.len() + q]) == name_key(bad@[q]));
                            }
                        }
                        assert(name_keys(routes@) =~= name_keys(start) + name_keys(bad@));
                        assert(name_keys(all_bad(listener_routes@.take(i + 1))) =~= name_keys(all_bad(listener_routes@.take(i as int))) + name_keys(listener_routes@[i as int].bad@));
                    }
                    i = i + 1;
                }
                assert(listener_routes@.take(i as int) =~= listener_routes@);
                let unique = unique_by_name(routes);
                let mut m = String::from_str("There are ");
                m.append(decimal(unique.len()).as_str());
                m.append(" non-redirect HTTPRoutes (listed below) attaching to HTTP listeners of this Gateway.\n");
                m.append(join(&labels(&unique), "\n").as_str());
                m
            },
            DenyReason::HTTPRouteNonRedirectAttachedToHTTPListener(gateways) => {
                let mut m = String::from_str(
                    "This non-redirect HTTPRoute is attaching to HTTP listeners of Gateways: ",
                );
                m.append(join(&labels(gateways), "\n").as_str());
                m
            },
            DenyReason::CannotInferenceMutation => String::from_str(
                "There is not enough information to make the mutation",
            ),
        }
    }
}

/// A status with the namespace and name of the object it is about.
#[derive(Debug)]
pub struct StatusAdmissionResponse(pub Status, pub (String, String));

/// The refusal message a status gives for the object `ns/name`, or `None`
/// when the object is admitted.
pub open spec fn refusal_spec(s: Status, ns: Seq<char>, name: Seq<char>) -> Option<Seq<char>> {
    match s {
        Status::Allowed => None,
        Status::MoveOn => None,
        Status::Denied(d) => Some(ns + "/"@ + name + ": "@ + deny_message(d)),
        Status::Invalid(m) => Some(ns + "/"@ + name + ": "@ + m@),
        Status::Patch(_) => None,
    }
}

impl StatusAdmissionResponse {
    pub fn new(status: Status, ns: &String, name: &String) -> (r: StatusAdmissionResponse)
        ensures
            r.0 == status,
            r.1.0@ == ns@,
            r.1.1@ == name@,
    {
        StatusAdmissionResponse(status, (ns.clone(), name.clone()))
    }

    /// Whether the object is admitted (`None`) or refused, with the message.
    /// A patch is no verdict to answer with here.
    pub fn refusal(&self) -> (r: Option<String>)
        requires
            !(self.0 is Patch),
        ensures
            match refusal_spec(self.0, self.1.0@, self.1.1@) {
                Some(m) => r matches Some(x) && x@ == m,
                None => r is None,
            },
    {
        let msg = match &self.0 {
            Status::Allowed => {
                return None;
            },
            Status::MoveOn => {
                return None;
            },
            Status::Denied(d) => d.message(),
            Status::Invalid(m) => m.clone(),
            Status::Patch(_) => {
                return None;
            },
        };
        let mut out = self.1.0.clone();
        out.append("/");
        out.append(self.1.1.as_str());
        out.append(": ");
        out.append(msg.as_str());
        Some(out)
    }
}

} // verus!
