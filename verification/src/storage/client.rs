//! The pool of MinIO clients, keyed by configuration name.

use minio::s3::creds::StaticProvider;
use minio::s3::http::BaseUrl;
use minio::s3::MinioClient;
use vstd::hash_map::StringHashMap;
use vstd::prelude::*;
use vstd::string::*;

use crate::config::MinioConfig;
use crate::storage::endpoint::{
    is_miscased, lemma_miscased_is_amazon, lemma_small_letters_are_fine, panics_parser, stands_at,
    would_panic,
};

verus! {

/// The base URL of an S3 endpoint.
#[verifier::external_type_specification]
#[verifier::external_body]
pub struct ExBaseUrl(minio::s3::http::BaseUrl);

/// Credentials that never change.
#[verifier::external_type_specification]
#[verifier::external_body]
pub struct ExStaticProvider(minio::s3::creds::StaticProvider);

/// The base URL that an endpoint's text parses to, or the text of the error.
pub uninterp spec fn base_url_of(endpoint: Seq<char>) -> Result<BaseUrl, Seq<char>>;

/// The credentials of an access key, a secret key and a session token.
pub uninterp spec fn static_credentials(
    access_key: Seq<char>,
    secret_key: Seq<char>,
    session_token: Option<Seq<char>>,
) -> StaticProvider;

/// What a client was made with: the base URL, the credentials, the path of the
/// certificate file, and whether it ignores certificate errors.
pub uninterp spec fn client_settings(client: MinioClient) -> (
    BaseUrl,
    StaticProvider,
    Option<Seq<char>>,
    Option<bool>,
);

/// `BaseUrl`'s `FromStr` parses an endpoint; its error is given as its text.
/// It panics for some hosts under Amazon's domain: see `panics_parser`.
#[verifier::external_body]
fn parse_base_url(endpoint: &str) -> (parsed: Result<BaseUrl, String>)
    requires
        !panics_parser(endpoint@),
    ensures
        match parsed {
            Ok(url) => base_url_of(endpoint@) == Ok::<BaseUrl, Seq<char>>(url),
            Err(text) => base_url_of(endpoint@) == Err::<BaseUrl, Seq<char>>(text@),
        },
{
    match endpoint.parse() {
        Ok(url) => Ok(url),
        Err(e) => {
            let e: minio::s3::error::ValidationErr = e;
            Err(e.to_string())
        },
    }
}

/// `StaticProvider::new` keeps the two keys and the session token.
pub assume_specification[ minio::s3::creds::StaticProvider::new ](
    access_key: &str,
    secret_key: &str,
    session_token: Option<&str>,
) -> (provider: minio::s3::creds::StaticProvider)
    ensures
        provider == static_credentials(
            access_key@,
            secret_key@,
            match session_token {
                Some(token) => Some(token@),
                None => None,
            },
        ),
;

/// The outcome of making a client: the client, or the text of the error.
pub type Made = Result<MinioClient, String>;

/// `MinioClient::new` makes a client of a base URL, credentials, the path of a
/// certificate file and the choice whether to ignore certificate errors; its
/// error is given as its text. Whether it succeeds depends on the machine too,
/// so that is left open.
#[verifier::external_body]
fn new_client(
    base_url: BaseUrl,
    provider: StaticProvider,
    cert_file: Option<String>,
    ignore_cert_check: Option<bool>,
) -> (client: Made)
    ensures
        client matches Ok(c) ==> client_settings(c) == (
            base_url,
            provider,
            match cert_file {
                Some(path) => Some(path@),
                None => None,
            },
            ignore_cert_check,
        ),
{
    let cert_file = cert_file.as_ref().map(std::path::Path::new);
    match MinioClient::new(base_url, Some(provider), cert_file, ignore_cert_check) {
        Ok(client) => Ok(client),
        Err(e) => Err(e.to_string()),
    }
}

/// What is said of an endpoint on which the parser of base URLs panics.
pub open spec fn miscased_text() -> Seq<char> {
    "the S3 labels of an Amazon host must be in lower case"@
}

/// The base URL of an endpoint, or what is wrong with it: what the parser says,
/// and where that would panic, that the host is miscased.
pub open spec fn endpoint_url(endpoint: Seq<char>) -> Result<BaseUrl, Seq<char>> {
    if panics_parser(endpoint) {
        Err(miscased_text())
    } else {
        base_url_of(endpoint)
    }
}

/// Reads an endpoint.
fn read_endpoint(endpoint: &str) -> (read: Result<BaseUrl, String>)
    ensures
        match read {
            Ok(url) => endpoint_url(endpoint@) == Ok::<BaseUrl, Seq<char>>(url),
            Err(text) => endpoint_url(endpoint@) == Err::<BaseUrl, Seq<char>>(text@),
        },
{
    if would_panic(endpoint) {
        Err("the S3 labels of an Amazon host must be in lower case".to_owned())
    } else {
        parse_base_url(endpoint)
    }
}

/// The choice whether to ignore certificate errors: the opposite of `secure`.
pub open spec fn ignore_cert_check(secure: Option<bool>) -> Option<bool> {
    match secure {
        Some(s) => Some(!s),
        None => None,
    }
}

/// Whether a client was made with what a configuration says, and with no
/// certificate file.
pub open spec fn made_for(client: MinioClient, config: MinioConfig) -> bool {
    &&& endpoint_url(config.endpoint@) is Ok
    &&& client_settings(client) == (
        endpoint_url(config.endpoint@)->Ok_0,
        static_credentials(config.access_key@, config.secret_key@, None),
        None::<Seq<char>>,
        ignore_cert_check(config.secure),
    )
}

/// What a client for a configuration is made with: the base URL, the
/// credentials, no certificate file, and whether to ignore certificate errors.
pub open spec fn asked_for(config: MinioConfig) -> (
    BaseUrl,
    StaticProvider,
    Option<String>,
    Option<bool>,
) {
    (
        endpoint_url(config.endpoint@)->Ok_0,
        static_credentials(config.access_key@, config.secret_key@, None),
        None::<String>,
        ignore_cert_check(config.secure),
    )
}

/// Whether `made` is an outcome of making the client of a configuration with
/// `MinioClient::new`. On one machine it may be another one than on the next.
pub closed spec fn is_outcome(config: MinioConfig, made: Made) -> bool {
    call_ensures(new_client, asked_for(config), made)
}

/// Why a pool could not be made.
#[derive(Debug)]
pub enum PoolError {
    /// The endpoint of a configuration is no base URL.
    InvalidEndpoint { endpoint: String, name: String, cause: String },
    /// The client of a configuration could not be made.
    ClientFailed { name: String, cause: String },
}

impl PoolError {
    /// What the error says.
    pub open spec fn text(self) -> Seq<char> {
        match self {
            PoolError::InvalidEndpoint { endpoint, name, cause } => "invalid endpoint '"@
                + endpoint@ + "' for minio config '"@ + name@ + "': "@ + cause@,
            PoolError::ClientFailed { name, cause } => "failed to create minio client '"@ + name@
                + "': "@ + cause@,
        }
    }

    /// What the error says.
    pub fn message(&self) -> (message: String)
        ensures
            message@ == self.text(),
    {
        match self {
            PoolError::InvalidEndpoint { endpoint, name, cause } => {
                let mut message = "invalid endpoint '".to_owned();
                message.append(endpoint.as_str());
                message.append("' for minio config '");
                message.append(name.as_str());
                message.append("': ");
                message.append(cause.as_str());
                message
            },
            PoolError::ClientFailed { name, cause } => {
                let mut message = "failed to create minio client '".to_owned();
                message.append(name.as_str());
                message.append("': ");
                message.append(cause.as_str());
                message
            },
        }
    }
}

/// Whether `error` reports the failure of configuration `i`, all configurations
/// before it having good endpoints.
pub open spec fn fails_at(configs: Seq<MinioConfig>, i: int, error: PoolError) -> bool {
    &&& 0 <= i < configs.len()
    &&& forall|j: int| 0 <= j < i ==> endpoint_url((#[trigger] configs[j]).endpoint@) is Ok
    &&& match error {
        PoolError::InvalidEndpoint { endpoint, name, cause } => {
            &&& endpoint_url(configs[i].endpoint@) == Err::<BaseUrl, Seq<char>>(cause@)
            &&& endpoint@ == configs[i].endpoint@
            &&& name@ == configs[i].name@
        },
        PoolError::ClientFailed { name, cause } => {
            &&& endpoint_url(configs[i].endpoint@) is Ok
            &&& name@ == configs[i].name@
        },
    }
}

/// Whether configuration `i` is the last one of its name.
pub open spec fn is_last_of_name(configs: Seq<MinioConfig>, i: int) -> bool {
    &&& 0 <= i < configs.len()
    &&& forall|j: int| i < j < configs.len() ==> (#[trigger] configs[j]).name@ != configs[i].name@
}

/// Whether `clients` holds, under each name of the configurations and no other,
/// a client made for the last configuration of that name.
pub open spec fn serves(clients: Map<Seq<char>, MinioClient>, configs: Seq<MinioConfig>) -> bool {
    &&& forall|i: int| 0 <= i < configs.len() ==> clients.contains_key(
        (#[trigger] configs[i]).name@,
    )
    &&& forall|name: Seq<char>| #[trigger]
        clients.contains_key(name) ==> exists|i: int|
            0 <= i < configs.len() && (#[trigger] configs[i]).name@ == name
    &&& forall|i: int| #[trigger]
        is_last_of_name(configs, i) ==> made_for(clients[configs[i].name@], configs[i])
}

/// The clients of the first `n` configurations under their names, a later one in
/// place of an earlier one.
pub open spec fn enrolled(
    configs: Seq<MinioConfig>,
    outcomes: Seq<Made>,
    n: int,
) -> Map<Seq<char>, MinioClient>
    decreases n,
{
    if n <= 0 {
        Map::empty()
    } else {
        enrolled(configs, outcomes, n - 1).insert(configs[n - 1].name@, outcomes[n - 1]->Ok_0)
    }
}

/// Whether all of the first `n` outcomes are clients.
pub open spec fn all_made(outcomes: Seq<Made>, n: int) -> bool {
    forall|i: int| 0 <= i < n ==> (#[trigger] outcomes[i]) is Ok
}

/// Whether `result` is what making a pool comes to, where `outcomes` are those
/// of the clients that were made, one configuration after the other. It stops at
/// the first failure. That is an endpoint that is no base URL, and then no client
/// of its configuration is made, or the last of the outcomes; the error speaks of
/// that configuration.
pub open spec fn comes_to(
    configs: Seq<MinioConfig>,
    outcomes: Seq<Made>,
    result: Result<Map<Seq<char>, MinioClient>, PoolError>,
) -> bool {
    let n = outcomes.len() as int;
    &&& n <= configs.len()
    &&& forall|i: int| 0 <= i < n ==> endpoint_url((#[trigger] configs[i]).endpoint@) is Ok
    &&& match result {
        Ok(clients) => {
            &&& n == configs.len()
            &&& all_made(outcomes, n)
            &&& clients == enrolled(configs, outcomes, n)
        },
        Err(PoolError::InvalidEndpoint { endpoint, name, cause }) => {
            &&& n < configs.len()
            &&& all_made(outcomes, n)
            &&& endpoint_url(configs[n].endpoint@) == Err::<BaseUrl, Seq<char>>(cause@)
            &&& endpoint@ == configs[n].endpoint@
            &&& name@ == configs[n].name@
        },
        Err(PoolError::ClientFailed { name, cause }) => {
            &&& n > 0
            &&& all_made(outcomes, n - 1)
            &&& outcomes[n - 1] matches Err(text) && text@ == cause@
            &&& name@ == configs[n - 1].name@
        },
    }
}

/// Whether `result` is what making a pool with `MinioClient::new` can come to.
pub open spec fn can_come_to(
    configs: Seq<MinioConfig>,
    result: Result<Map<Seq<char>, MinioClient>, PoolError>,
) -> bool {
    exists|outcomes: Seq<Made>| #[trigger]
        comes_to(configs, outcomes, result) && are_outcomes(configs, outcomes)
}

/// Whether `outcomes` are outcomes of making the clients of the first
/// configurations, one for each, with `MinioClient::new`.
pub open spec fn are_outcomes(configs: Seq<MinioConfig>, outcomes: Seq<Made>) -> bool {
    forall|i: int| 0 <= i < outcomes.len() ==> is_outcome(configs[i], #[trigger] outcomes[i])
}

/// The clients of a pool, or why there is none.
pub open spec fn clients_of(result: Result<MinioClientPool, PoolError>) -> Result<
    Map<Seq<char>, MinioClient>,
    PoolError,
> {
    match result {
        Ok(pool) => Ok(pool@),
        Err(error) => Err(error),
    }
}

/// One client per configured MinIO instance, keyed by name.
pub struct MinioClientPool {
    clients: StringHashMap<MinioClient>,
}

impl View for MinioClientPool {
    type V = Map<Seq<char>, MinioClient>;

    closed spec fn view(&self) -> Map<Seq<char>, MinioClient> {
        self.clients@
    }
}

impl MinioClientPool {
    /// Takes in the outcome of making the client of a configuration: the client
    /// goes under the configuration's name, in place of one that was there, and
    /// a failure is reported.
    pub fn enroll(&mut self, config: &MinioConfig, made: Made) -> (result: Result<
        (),
        PoolError,
    >)
        ensures
            match made {
                Ok(client) => result is Ok && final(self)@ == old(self)@.insert(
                    config.name@,
                    client,
                ),
                Err(cause) => {
                    &&& final(self)@ == old(self)@
                    &&& result matches Err(PoolError::ClientFailed { name, cause: c })
                    &&& name@ == config.name@
                    &&& c == cause
                },
            },
    {
        match made {
            Ok(client) => {
                self.clients.insert(config.name.clone(), client);
                Ok(())
            },
            Err(cause) => Err(PoolError::ClientFailed { name: config.name.clone(), cause }),
        }
    }

    /// Makes a pool, and each of its clients with `make`: for each configuration,
    /// in order, up to the first that fails.
    pub fn from_configs_with<F>(configs: &[MinioConfig], make: F) -> (result: Result<
        Self,
        PoolError,
    >) where F: Fn(BaseUrl, StaticProvider, Option<String>, Option<bool>) -> Made
        requires
            forall|args: (BaseUrl, StaticProvider, Option<String>, Option<bool>)| #[trigger]
                call_requires(make, args),
        ensures
            exists|outcomes: Seq<Made>|
                {
                    &&& #[trigger] comes_to(configs@, outcomes, clients_of(result))
                    &&& forall|i: int|
                        0 <= i < outcomes.len() ==> call_ensures(
                            make,
                            asked_for(configs@[i]),
                            #[trigger] outcomes[i],
                        )
                    &&& forall|i: int|
                        0 <= i < outcomes.len() ==> call_ensures(
                            make,
                            (
                                endpoint_url(configs@[i].endpoint@)->Ok_0,
                                static_credentials(
                                    configs@[i].access_key@,
                                    configs@[i].secret_key@,
                                    None,
                                ),
                                None::<String>,
                                match configs@[i].secure {
                                    Some(secure) => Some(!secure),
                                    None => None,
                                },
                            ),
                            #[trigger] outcomes[i],
                        )
                },
    {
        let mut pool = MinioClientPool { clients: StringHashMap::new() };
        let ghost mut outcomes: Seq<Made> = Seq::empty();
        let mut i: usize = 0;
        while i < configs.len()
            invariant
                i <= configs@.len(),
                outcomes.len() == i,
                forall|args: (BaseUrl, StaticProvider, Option<String>, Option<bool>)| #[trigger]
                    call_requires(make, args),
                forall|j: int|
                    0 <= j < i ==> endpoint_url((#[trigger] configs@[j]).endpoint@) is Ok,
                forall|j: int|
                    0 <= j < i ==> call_ensures(
                        make,
                        asked_for(configs@[j]),
                        #[trigger] outcomes[j],
                    ),
                all_made(outcomes, i as int),
                pool@ == enrolled(configs@, outcomes, i as int),
            decreases configs@.len() - i,
        {
            let config = &configs[i];
            let ghost before = outcomes;
            let base_url = match read_endpoint(config.endpoint.as_str()) {
                Ok(url) => url,
                Err(cause) => {
                    let result = Err(
                        PoolError::InvalidEndpoint {
                            endpoint: config.endpoint.clone(),
                            name: config.name.clone(),
                            cause,
                        },
                    );
                    assert(comes_to(configs@, outcomes, clients_of(result)));
                    return result;
                },
            };
            let provider = StaticProvider::new(
                config.access_key.as_str(),
                config.secret_key.as_str(),
                None,
            );
            let ignore = match config.secure {
                Some(secure) => Some(!secure),
                None => None,
            };
            let made = make(base_url, provider, None, ignore);
            proof {
                outcomes = outcomes.push(made);
                lemma_enrolled_before(configs@, before, outcomes, i as int);
            }
            if let Err(error) = pool.enroll(config, made) {
                let result = Err(error);
                assert(comes_to(configs@, outcomes, clients_of(result)));
                return result;
            }
            i = i + 1;
        }
        let result = Ok(pool);
        assert(comes_to(configs@, outcomes, clients_of(result)));
        result
    }

    /// Makes a client for each configuration, in order, and stops at the first
    /// that fails: its endpoint is no base URL, or the client cannot be made.
    pub fn from_configs(configs: &[MinioConfig]) -> (result: Result<Self, PoolError>)
        ensures
            can_come_to(configs@, clients_of(result)),
            match result {
                Ok(pool) => {
                    &&& forall|i: int|
                        0 <= i < configs@.len() ==> endpoint_url(
                            (#[trigger] configs@[i]).endpoint@,
                        ) is Ok
                    &&& serves(pool@, configs@)
                },
                Err(error) => exists|i: int| fails_at(configs@, i, error),
            },
            result matches Ok(pool) ==> forall|i: int|
                0 <= i < configs@.len() && (forall|j: int|
                    i < j < configs@.len() ==> (#[trigger] configs@[j]).name@ != configs@[i].name@)
                    ==> pool@.contains_key((#[trigger] configs@[i]).name@) && client_settings(
                    pool@[configs@[i].name@],
                ) == (
                    base_url_of(configs@[i].endpoint@)->Ok_0,
                    static_credentials(configs@[i].access_key@, configs@[i].secret_key@, None),
                    None::<Seq<char>>,
                    match configs@[i].secure {
                        Some(secure) => Some(!secure),
                        None => None,
                    },
                ),
            result matches Ok(pool) ==> forall|name: Seq<char>| #[trigger]
                pool@.contains_key(name) <==> exists|i: int|
                    0 <= i < configs@.len() && (#[trigger] configs@[i]).name@ == name,
            (exists|i: int|
                0 <= i < configs@.len() && base_url_of((#[trigger] configs@[i]).endpoint@) is Err
                    && !panics_parser(configs@[i].endpoint@)) ==> result is Err,
    {
        let result = Self::from_configs_with(configs, new_client);
        proof {
            let outcomes = choose|outcomes: Seq<Made>|
                {
                    &&& #[trigger] comes_to(configs@, outcomes, clients_of(result))
                    &&& forall|i: int|
                        0 <= i < outcomes.len() ==> call_ensures(
                            new_client,
                            asked_for(configs@[i]),
                            #[trigger] outcomes[i],
                        )
                };
            let n = outcomes.len() as int;
            assert forall|i: int| 0 <= i < n implies is_outcome(
                configs@[i],
                #[trigger] outcomes[i],
            ) by {
                assert(call_ensures(new_client, asked_for(configs@[i]), outcomes[i]));
            }
            assert(are_outcomes(configs@, outcomes));
            match result {
                Ok(_) => {
                    lemma_enrolled_serves(configs@, outcomes, n);
                    assert(configs@.take(n) == configs@);
                    assert forall|i: int|
                        0 <= i < configs@.len() && (forall|j: int|
                            i < j < configs@.len() ==> (#[trigger] configs@[j]).name@
                                != configs@[i].name@) implies client_settings(
                        clients_of(result)->Ok_0[(#[trigger] configs@[i]).name@],
                    ) == (
                        base_url_of(configs@[i].endpoint@)->Ok_0,
                        static_credentials(configs@[i].access_key@, configs@[i].secret_key@, None),
                        None::<Seq<char>>,
                        match configs@[i].secure {
                            Some(secure) => Some(!secure),
                            None => None,
                        },
                    ) by {
                        assert(is_last_of_name(configs@, i));
                    }
                },
                Err(PoolError::InvalidEndpoint { .. }) => {
                    assert(fails_at(configs@, n, result->Err_0));
                },
                Err(PoolError::ClientFailed { .. }) => {
                    assert(fails_at(configs@, n - 1, result->Err_0));
                },
            }
        }
        result
    }

    /// The client under `name`, if there is one.
    pub fn get(&self, name: &str) -> (client: Option<&MinioClient>)
        ensures
            match client {
                Some(c) => self@.contains_key(name@) && *c == self@[name@],
                None => !self@.contains_key(name@),
            },
    {
        self.clients.get(name)
    }
}

/// What the first clients are does not depend on the outcomes behind them.
proof fn lemma_enrolled_before(
    configs: Seq<MinioConfig>,
    a: Seq<Made>,
    b: Seq<Made>,
    n: int,
)
    requires
        n <= a.len(),
        n <= b.len(),
        forall|i: int| 0 <= i < n ==> #[trigger] a[i] == b[i],
    ensures
        enrolled(configs, a, n) == enrolled(configs, b, n),
    decreases n,
{
    if n > 0 {
        assert(a[n - 1] == b[n - 1]);
        lemma_enrolled_before(configs, a, b, n - 1);
    }
}

/// A client that `MinioClient::new` made is one for its configuration.
pub proof fn lemma_outcome_is_made_for(config: MinioConfig, made: Made)
    requires
        endpoint_url(config.endpoint@) is Ok,
        is_outcome(config, made),
        made is Ok,
    ensures
        made_for(made->Ok_0, config),
{
}

/// The clients that `MinioClient::new` made of the first configurations serve
/// them.
proof fn lemma_enrolled_serves(configs: Seq<MinioConfig>, outcomes: Seq<Made>, n: int)
    requires
        0 <= n <= configs.len(),
        n <= outcomes.len(),
        all_made(outcomes, n),
        forall|i: int| 0 <= i < n ==> endpoint_url((#[trigger] configs[i]).endpoint@) is Ok,
        forall|i: int| 0 <= i < n ==> is_outcome(configs[i], #[trigger] outcomes[i]),
    ensures
        serves(enrolled(configs, outcomes, n), configs.take(n)),
    decreases n,
{
    if n > 0 {
        let client = outcomes[n - 1]->Ok_0;
        lemma_enrolled_serves(configs, outcomes, n - 1);
        assert(outcomes[n - 1] is Ok);
        lemma_outcome_is_made_for(configs[n - 1], outcomes[n - 1]);
        lemma_serves_next(enrolled(configs, outcomes, n - 1), configs, n - 1, client);
    }
}

/// A client for the next configuration, put under its name, serves one
/// configuration more.
proof fn lemma_serves_next(
    clients: Map<Seq<char>, MinioClient>,
    configs: Seq<MinioConfig>,
    n: int,
    client: MinioClient,
)
    requires
        0 <= n < configs.len(),
        serves(clients, configs.take(n)),
        made_for(client, configs[n]),
    ensures
        serves(clients.insert(configs[n].name@, client), configs.take(n + 1)),
{
    let shorter = configs.take(n);
    let longer = configs.take(n + 1);
    let more = clients.insert(configs[n].name@, client);
    assert(longer[n] == configs[n]);
    assert forall|i: int| 0 <= i < longer.len() implies more.contains_key(
        (#[trigger] longer[i]).name@,
    ) by {
        if i < n {
            assert(longer[i] == shorter[i]);
        }
    }
    assert forall|name: Seq<char>| #[trigger] more.contains_key(name) implies exists|i: int|
        0 <= i < longer.len() && (#[trigger] longer[i]).name@ == name by {
        if name != configs[n].name@ {
            assert(clients.contains_key(name));
            let i = choose|i: int| 0 <= i < shorter.len() && (#[trigger] shorter[i]).name@ == name;
            assert(longer[i].name@ == name);
        }
    }
    assert forall|i: int| #[trigger] is_last_of_name(longer, i) implies made_for(
        more[longer[i].name@],
        longer[i],
    ) by {
        if i < n {
            assert(longer[n].name@ != longer[i].name@);
            assert forall|j: int| i < j < shorter.len() implies (#[trigger] shorter[j]).name@
                != shorter[i].name@ by {
                assert(longer[j] == shorter[j]);
            }
            assert(is_last_of_name(shorter, i));
        }
    }
}

/// A pool knows exactly the configured names, and under each it has a client
/// made for the last configuration of that name.
pub proof fn lemma_pool_knows_configured(
    clients: Map<Seq<char>, MinioClient>,
    configs: Seq<MinioConfig>,
    name: Seq<char>,
)
    requires
        serves(clients, configs),
    ensures
        clients.contains_key(name) <==> exists|i: int|
            0 <= i < configs.len() && (#[trigger] configs[i]).name@ == name,
        clients.contains_key(name) ==> exists|i: int| #[trigger]
            is_last_of_name(configs, i) && configs[i].name@ == name && made_for(
                clients[name],
                configs[i],
            ),
{
    if clients.contains_key(name) {
        let i = choose|i: int| 0 <= i < configs.len() && (#[trigger] configs[i]).name@ == name;
        lemma_some_config_is_last(configs, i);
        let last = choose|k: int| #[trigger]
            is_last_of_name(configs, k) && configs[k].name@ == name;
        assert(made_for(clients[configs[last].name@], configs[last]));
    }
}

/// Whether two configurations agree on everything but the region.
pub open spec fn same_but_region(a: MinioConfig, b: MinioConfig) -> bool {
    &&& a.name@ == b.name@
    &&& a.endpoint@ == b.endpoint@
    &&& a.access_key@ == b.access_key@
    &&& a.secret_key@ == b.secret_key@
    &&& a.secure == b.secure
}

/// The region of a configuration has no effect: making a pool of configurations
/// that agree on everything else asks for the same clients and can come to the
/// same results, and comes to the same one where the clients have the same
/// outcomes.
pub proof fn lemma_region_has_no_effect(
    a: Seq<MinioConfig>,
    b: Seq<MinioConfig>,
    outcomes: Seq<Made>,
    result: Result<Map<Seq<char>, MinioClient>, PoolError>,
)
    requires
        a.len() == b.len(),
        forall|i: int| 0 <= i < a.len() ==> same_but_region(#[trigger] a[i], b[i]),
    ensures
        forall|i: int| 0 <= i < a.len() ==> asked_for(#[trigger] a[i]) == asked_for(b[i]),
        comes_to(a, outcomes, result) <==> comes_to(b, outcomes, result),
        can_come_to(a, result) <==> can_come_to(b, result),
{
    assert forall|i: int| 0 <= i < b.len() implies same_but_region(#[trigger] b[i], a[i]) by {
        assert(same_but_region(a[i], b[i]));
    }
    lemma_comes_to_same(a, b, outcomes, result);
    lemma_comes_to_same(b, a, outcomes, result);
    if can_come_to(a, result) {
        let made = choose|made: Seq<Made>| #[trigger]
            comes_to(a, made, result) && are_outcomes(a, made);
        lemma_comes_to_same(a, b, made, result);
    }
    if can_come_to(b, result) {
        let made = choose|made: Seq<Made>| #[trigger]
            comes_to(b, made, result) && are_outcomes(b, made);
        lemma_comes_to_same(b, a, made, result);
    }
}

/// What a pool of some configurations comes to, one of configurations that
/// differ from them in the region alone comes to as well.
proof fn lemma_comes_to_same(
    a: Seq<MinioConfig>,
    b: Seq<MinioConfig>,
    outcomes: Seq<Made>,
    result: Result<Map<Seq<char>, MinioClient>, PoolError>,
)
    requires
        a.len() == b.len(),
        forall|i: int| 0 <= i < a.len() ==> same_but_region(#[trigger] a[i], b[i]),
    ensures
        comes_to(a, outcomes, result) ==> comes_to(b, outcomes, result),
        comes_to(a, outcomes, result) && are_outcomes(a, outcomes) ==> are_outcomes(b, outcomes),
{
    if comes_to(a, outcomes, result) {
        let n = outcomes.len() as int;
        assert forall|i: int| 0 <= i < n implies endpoint_url(
            (#[trigger] b[i]).endpoint@,
        ) is Ok by {
            assert(same_but_region(a[i], b[i]));
        }
        lemma_enrolled_same(a, b, outcomes, n);
        if n < a.len() {
            assert(same_but_region(a[n], b[n]));
        }
        if n > 0 {
            assert(same_but_region(a[n - 1], b[n - 1]));
        }
        if are_outcomes(a, outcomes) {
            assert forall|i: int| 0 <= i < n implies is_outcome(b[i], #[trigger] outcomes[i]) by {
                assert(is_outcome(a[i], outcomes[i]));
                assert(same_but_region(a[i], b[i]));
            }
        }
    }
}

/// The same clients come under the same names.
proof fn lemma_enrolled_same(
    a: Seq<MinioConfig>,
    b: Seq<MinioConfig>,
    outcomes: Seq<Made>,
    n: int,
)
    requires
        n <= a.len() == b.len(),
        forall|i: int| 0 <= i < a.len() ==> same_but_region(#[trigger] a[i], b[i]),
    ensures
        enrolled(a, outcomes, n) == enrolled(b, outcomes, n),
    decreases n,
{
    if n > 0 {
        assert(same_but_region(a[n - 1], b[n - 1]));
        lemma_enrolled_same(a, b, outcomes, n - 1);
    }
}

/// Whether configuration `k` is the first that fails: its endpoint is no base
/// URL, or its client cannot be made. `all` are the outcomes of the clients, one
/// for each configuration.
pub open spec fn first_failure(configs: Seq<MinioConfig>, all: Seq<Made>, k: int) -> bool {
    &&& 0 <= k < configs.len()
    &&& endpoint_url(configs[k].endpoint@) is Err || all[k] is Err
    &&& forall|j: int|
        0 <= j < k ==> endpoint_url((#[trigger] configs[j]).endpoint@) is Ok && all[j] is Ok
}

/// One configuration that fails, anywhere, means that there is no pool, and
/// without one there is a pool. The error is that of the first configuration
/// that fails. `all` are the outcomes of the clients, one for each
/// configuration; those behind the first failure are not asked for.
pub proof fn lemma_first_failure_is_reported(
    configs: Seq<MinioConfig>,
    all: Seq<Made>,
    outcomes: Seq<Made>,
    result: Result<Map<Seq<char>, MinioClient>, PoolError>,
)
    requires
        all.len() == configs.len(),
        outcomes.is_prefix_of(all),
        comes_to(configs, outcomes, result),
    ensures
        result is Err <==> exists|i: int|
            0 <= i < configs.len() && (endpoint_url((#[trigger] configs[i]).endpoint@) is Err
                || all[i] is Err),
        result matches Err(error) ==> exists|k: int| #[trigger]
            first_failure(configs, all, k) && error.text() == match endpoint_url(
                configs[k].endpoint@,
            ) {
                Err(cause) => "invalid endpoint '"@ + configs[k].endpoint@
                    + "' for minio config '"@ + configs[k].name@ + "': "@ + cause,
                Ok(_) => "failed to create minio client '"@ + configs[k].name@ + "': "@
                    + all[k]->Err_0@,
            },
        result matches Ok(clients) ==> clients == enrolled(configs, all, configs.len() as int),
{
    let n = outcomes.len() as int;
    assert forall|i: int| 0 <= i < n implies #[trigger] outcomes[i] == all[i] by {}
    match result {
        Ok(_) => {
            assert(outcomes == all);
        },
        Err(PoolError::InvalidEndpoint { .. }) => {
            assert forall|j: int| 0 <= j < n implies endpoint_url(
                (#[trigger] configs[j]).endpoint@,
            ) is Ok && all[j] is Ok by {
                assert(outcomes[j] is Ok);
            }
            assert(first_failure(configs, all, n));
        },
        Err(PoolError::ClientFailed { .. }) => {
            assert forall|j: int| 0 <= j < n - 1 implies endpoint_url(
                (#[trigger] configs[j]).endpoint@,
            ) is Ok && all[j] is Ok by {
                assert(outcomes[j] is Ok);
            }
            assert(outcomes[n - 1] == all[n - 1]);
            assert(endpoint_url(configs[n - 1].endpoint@) is Ok);
            assert(first_failure(configs, all, n - 1));
        },
    }
}

/// Two pools of configurations that agree on everything but the region come to
/// the same where their clients have the same outcomes, `all`, one for each
/// configuration: both are there, with the same clients under the same names, or
/// neither is, for the same reason.
pub proof fn lemma_same_outcomes_same_result(
    a: Seq<MinioConfig>,
    b: Seq<MinioConfig>,
    all: Seq<Made>,
    made_a: Seq<Made>,
    made_b: Seq<Made>,
    result_a: Result<Map<Seq<char>, MinioClient>, PoolError>,
    result_b: Result<Map<Seq<char>, MinioClient>, PoolError>,
)
    requires
        a.len() == b.len() == all.len(),
        forall|i: int| 0 <= i < a.len() ==> same_but_region(#[trigger] a[i], b[i]),
        made_a.is_prefix_of(all),
        made_b.is_prefix_of(all),
        comes_to(a, made_a, result_a),
        comes_to(b, made_b, result_b),
    ensures
        result_a is Ok <==> result_b is Ok,
        result_a is Ok ==> result_a->Ok_0 == result_b->Ok_0,
        result_a is Err ==> result_a->Err_0.text() == result_b->Err_0.text(),
{
    lemma_region_has_no_effect(a, b, made_a, result_a);
    lemma_first_failure_is_reported(b, all, made_a, result_a);
    lemma_first_failure_is_reported(b, all, made_b, result_b);
}

/// Of the configurations with the name of configuration `i`, one is the last.
proof fn lemma_some_config_is_last(configs: Seq<MinioConfig>, i: int)
    requires
        0 <= i < configs.len(),
    ensures
        exists|k: int| #[trigger]
            is_last_of_name(configs, k) && configs[k].name@ == configs[i].name@,
    decreases configs.len() - i,
{
    if !is_last_of_name(configs, i) {
        let later = choose|j: int|
            i < j < configs.len() && (#[trigger] configs[j]).name@ == configs[i].name@;
        lemma_some_config_is_last(configs, later);
    }
}

/// An endpoint is read by the parser of base URLs, and what that says is what
/// counts, unless it would panic; then the endpoint is no base URL.
pub proof fn lemma_endpoint_is_left_to_parser(endpoint: Seq<char>)
    ensures
        !panics_parser(endpoint) ==> endpoint_url(endpoint) == base_url_of(endpoint),
        panics_parser(endpoint) ==> endpoint_url(endpoint) is Err,
        endpoint_url(endpoint) is Ok ==> endpoint_url(endpoint) == base_url_of(endpoint),
{
}

/// Endpoints without a capital letter, and endpoints that Amazon's domain stands
/// nowhere in, are all left to the parser.
pub proof fn lemma_ordinary_endpoints_are_left_to_parser(endpoint: Seq<char>)
    requires
        (forall|i: int| 0 <= i < endpoint.len() ==> !('A' <= #[trigger] endpoint[i] <= 'Z'))
            || !exists|at: int| stands_at(endpoint, ".amazonaws.com"@, at),
    ensures
        endpoint_url(endpoint) == base_url_of(endpoint),
{
    if forall|i: int| 0 <= i < endpoint.len() ==> !('A' <= #[trigger] endpoint[i] <= 'Z') {
        lemma_small_letters_are_fine(endpoint);
    } else if is_miscased(endpoint) {
        lemma_miscased_is_amazon(endpoint);
    }
}

/// What a client is asked for with is its configuration's and nothing else: the
/// URL of its endpoint, its two keys without a session token, no certificate
/// file, and certificate errors ignored exactly where it says that it is not
/// secure. And a client made for it was made with that.
pub proof fn lemma_client_is_of_its_config(config: MinioConfig, client: MinioClient)
    ensures
        asked_for(config).0 == endpoint_url(config.endpoint@)->Ok_0,
        asked_for(config).1 == static_credentials(config.access_key@, config.secret_key@, None),
        asked_for(config).2 is None,
        asked_for(config).3 == (match config.secure {
            Some(secure) => Some(!secure),
            None => None,
        }),
        made_for(client, config) <==> {
            &&& endpoint_url(config.endpoint@) is Ok
            &&& client_settings(client).0 == endpoint_url(config.endpoint@)->Ok_0
            &&& client_settings(client).1 == static_credentials(
                config.access_key@,
                config.secret_key@,
                None,
            )
            &&& client_settings(client).2 is None
            &&& client_settings(client).3 == (match config.secure {
                Some(secure) => Some(!secure),
                None => None,
            })
        },
        ignore_cert_check(Some(true)) == Some(false),
        ignore_cert_check(Some(false)) == Some(true),
        ignore_cert_check(None) is None,
{
}

/// Every client of a pool bears its own configuration's keys and settings, that
/// of the last configuration of its name; and a pool knows the configured names,
/// as they are written, and no others.
pub proof fn lemma_pool_is_of_its_configs(
    configs: &[MinioConfig],
    result: Result<MinioClientPool, PoolError>,
    name: &str,
    found: Option<&MinioClient>,
)
    requires
        call_ensures(MinioClientPool::from_configs, (configs,), result),
        result is Ok,
        call_ensures(MinioClientPool::get, (&result->Ok_0, name), found),
    ensures
        found is Some <==> exists|i: int|
            0 <= i < configs@.len() && (#[trigger] configs@[i]).name@ == name@,
        found matches Some(client) ==> exists|i: int|
            {
                &&& 0 <= i < configs@.len()
                &&& (#[trigger] configs@[i]).name@ == name@
                &&& forall|j: int|
                    i < j < configs@.len() ==> (#[trigger] configs@[j]).name@ != name@
                &&& client_settings(*client) == (
                    base_url_of(configs@[i].endpoint@)->Ok_0,
                    static_credentials(configs@[i].access_key@, configs@[i].secret_key@, None),
                    None::<Seq<char>>,
                    match configs@[i].secure {
                        Some(secure) => Some(!secure),
                        None => None,
                    },
                )
            },
{
    let pool = result->Ok_0;
    if let Some(client) = found {
        let i = choose|i: int|
            0 <= i < configs@.len() && (#[trigger] configs@[i]).name@ == name@;
        lemma_some_config_is_last(configs@, i);
        let last = choose|k: int| #[trigger]
            is_last_of_name(configs@, k) && configs@[k].name@ == configs@[i].name@;
        assert(configs@[last].name@ == name@);
    }
}

/// Why there is no pool, in full: of a bad endpoint the endpoint, the name and
/// what the parser says of it, and of a client that could not be made the name
/// and the reason.
pub proof fn lemma_pool_error_says_all(error: PoolError, message: String)
    requires
        call_ensures(PoolError::message, (&error,), message),
    ensures
        error matches PoolError::InvalidEndpoint { endpoint, name, cause } ==> message@
            == "invalid endpoint '"@ + endpoint@ + "' for minio config '"@ + name@ + "': "@
            + cause@,
        error matches PoolError::ClientFailed { name, cause } ==> message@
            == "failed to create minio client '"@ + name@ + "': "@ + cause@,
        error.text() == message@,
{
}

/// The clients of a pool by name: under each configured name it is the outcome
/// of the last configuration of that name, and there is no other name.
pub proof fn lemma_enrolled_by_name(configs: Seq<MinioConfig>, outcomes: Seq<Made>, n: int)
    requires
        0 <= n <= configs.len(),
        n <= outcomes.len(),
    ensures
        forall|i: int|
            0 <= i < n && (forall|j: int| i < j < n ==> (#[trigger] configs[j]).name@
                != configs[i].name@) ==> enrolled(configs, outcomes, n).contains_key(
                (#[trigger] configs[i]).name@,
            ) && enrolled(configs, outcomes, n)[configs[i].name@] == outcomes[i]->Ok_0,
        forall|name: Seq<char>| #[trigger]
            enrolled(configs, outcomes, n).contains_key(name) <==> exists|i: int|
                0 <= i < n && (#[trigger] configs[i]).name@ == name,
    decreases n,
{
    if n > 0 {
        lemma_enrolled_by_name(configs, outcomes, n - 1);
        let before = enrolled(configs, outcomes, n - 1);
        let after = enrolled(configs, outcomes, n);
        assert forall|i: int|
            0 <= i < n && (forall|j: int| i < j < n ==> (#[trigger] configs[j]).name@
                != configs[i].name@) implies after.contains_key((#[trigger] configs[i]).name@)
            && after[configs[i].name@] == outcomes[i]->Ok_0 by {
            if i < n - 1 {
                assert(configs[n - 1].name@ != configs[i].name@);
                assert(before.contains_key(configs[i].name@));
            }
        }
        assert forall|name: Seq<char>| #[trigger] after.contains_key(name) <==> exists|i: int|
            0 <= i < n && (#[trigger] configs[i]).name@ == name by {
            if name == configs[n - 1].name@ {
                assert(configs[n - 1].name@ == name);
            } else if after.contains_key(name) {
                assert(before.contains_key(name));
            } else if exists|i: int| 0 <= i < n && (#[trigger] configs[i]).name@ == name {
                let i = choose|i: int| 0 <= i < n && (#[trigger] configs[i]).name@ == name;
                assert(i < n - 1);
                assert(before.contains_key(name));
            }
        }
    }
}

/// A pool gives the client under a name, whenever it is asked.
pub proof fn lemma_client_is_found(
    pool: MinioClientPool,
    name: &str,
    first: Option<&MinioClient>,
    second: Option<&MinioClient>,
)
    requires
        call_ensures(MinioClientPool::get, (&pool, name), first),
        call_ensures(MinioClientPool::get, (&pool, name), second),
    ensures
        first == second,
        first is Some <==> pool@.dom().contains(name@),
        first matches Some(client) ==> *client == pool@[name@],
{
}

} // verus!
