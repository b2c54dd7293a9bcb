//! Configuration types and helpers for constructing operators.
use vstd::prelude::*;

use crate::error::{option_view, pair_views, Failure, VfsError, VfsErrorView};
use crate::number::{decimal, law_decimal_round_trip, parse_unsigned, unsigned_value};
use crate::operator::{
    build_operator, layer_concurrency, layer_retry, layer_throttle, operator_layers,
    refused_options, refused_scheme, requested_options, requested_scheme, LayerSetting,
};
use crate::retry::{
    ascii, ascii_lowercase, law_retry_round_trip, lowercase, retry_named, RetrySetting,
};
use crate::service::Service;
use crate::table::{law_text_map_has_each_entry, listing, text_map, Table};
use crate::throttle::{throttle_named, Throttle};

verus! {

/// A storage service: its name and its settings.
#[derive(Debug, PartialEq, Eq)]
pub struct Scheme {
    /// The name, such as `memory` or `s3`.
    pub name: String,
    /// The settings, each under its key.
    pub options: Table<String>,
}

/// What a [`Scheme`] says.
#[verifier::ext_equal]
pub struct SchemeView {
    /// The name, such as `memory` or `s3`.
    pub name: Seq<char>,
    /// The settings, each under its key.
    pub options: Map<Seq<char>, Seq<char>>,
}

impl View for Scheme {
    type V = SchemeView;

    open spec fn view(&self) -> SchemeView {
        SchemeView { name: self.name@, options: text_map(self.options@) }
    }
}

impl Clone for Scheme {
    fn clone(&self) -> (r: Scheme)
        ensures
            r@ == self@,
            r.name == self.name,
            r.options@ == self.options@,
            r.options.keys() == self.options.keys(),
    {
        Scheme { name: self.name.clone(), options: self.options.clone() }
    }
}

impl Scheme {
    /// A service with the given settings.
    pub fn new(service: Service, options: Table<String>) -> (r: Scheme)
        ensures
            r.name@ == service.scheme(),
            r.options == options,
    {
        Scheme::dynamic(service.name(), options)
    }

    /// A service with the name `scheme` and the given settings.
    pub fn dynamic(scheme: &str, options: Table<String>) -> (r: Scheme)
        ensures
            r.name@ == scheme@,
            r.options == options,
    {
        Scheme { name: scheme.to_owned(), options }
    }

    /// Whether `error` is one that OpenDAL returned for this name and these settings.
    pub open spec fn refused_with(self, error: VfsErrorView) -> bool {
        error matches VfsErrorView::Backend(e) && refused_scheme(e) == self.name@
            && refused_options(e) == listing(self.options)
    }

    /// Creates an operator: the name and the settings are handed to OpenDAL as they are.
    pub fn operator(&self) -> (r: Result<opendal::Operator, VfsError>)
        ensures
            match r {
                Ok(op) => {
                    &&& requested_scheme(op) == self.name@
                    &&& requested_options(op) == listing(self.options)
                    &&& operator_layers(op) == Seq::<LayerSetting>::empty()
                },
                Err(e) => self.refused_with(e@),
            },
    {
        match build_operator(self.name.as_str(), self.options.pairs()) {
            Ok(op) => Ok(op),
            Err(e) => Err(VfsError::Backend(e)),
        }
    }
}

/// How often a call is repeated unless the configuration says otherwise.
pub const DEFAULT_RETRIES: usize = 5;

/// The configuration of a storage operator.
#[derive(Debug, PartialEq, Eq)]
#[non_exhaustive]
pub struct OpenDALConfig {
    /// The maximum connections.
    pub connections: Option<u32>,
    /// The [`Throttle`] settings.
    pub throttle: Option<Throttle>,
    /// The [`RetrySetting`] config.
    pub retry: RetrySetting,
    /// The service.
    pub config: Scheme,
}

impl OpenDALConfig {
    /// Whether two configurations say the same.
    pub open spec fn same_config(self, other: OpenDALConfig) -> bool {
        &&& self.connections == other.connections
        &&& self.throttle == other.throttle
        &&& self.retry == other.retry
        &&& self.config@ == other.config@
        &&& self.config.options.keys() == other.config.options.keys()
    }
}

impl Clone for OpenDALConfig {
    fn clone(&self) -> (r: OpenDALConfig)
        ensures
            r.same_config(*self),
    {
        OpenDALConfig {
            connections: self.connections,
            throttle: self.throttle,
            retry: self.retry,
            config: self.config.clone(),
        }
    }
}

/// The settings that a sequence of pairs makes: of two with the same key the later one counts.
pub open spec fn collected(pairs: Seq<(Seq<char>, Seq<char>)>) -> Map<Seq<char>, Seq<char>>
    decreases pairs.len(),
{
    if pairs.len() == 0 {
        Map::empty()
    } else {
        collected(pairs.drop_last()).insert(pairs.last().0, pairs.last().1)
    }
}

/// The value of `key`, if it is set.
pub open spec fn setting(settings: Map<Seq<char>, Seq<char>>, key: Seq<char>) -> Option<
    Seq<char>,
> {
    if settings.contains_key(key) {
        Some(settings[key])
    } else {
        None
    }
}

/// The settings that are left for the service: the ones that this library reads are taken out.
/// Where both names of the number of connections are set, the second one is left.
pub open spec fn service_settings(settings: Map<Seq<char>, Seq<char>>) -> Map<
    Seq<char>,
    Seq<char>,
> {
    let rest = if settings.contains_key("connections"@) {
        settings.remove("connections"@)
    } else {
        settings.remove("max_connections"@)
    };
    rest.remove("throttle"@).remove("retry"@)
}

/// The number of connections that is set, under either name.
pub open spec fn connections_set(settings: Map<Seq<char>, Seq<char>>) -> Option<Seq<char>> {
    match setting(settings, "connections"@) {
        Some(text) => Some(text),
        None => setting(settings, "max_connections"@),
    }
}

/// The number of connections that a text stands for, if it stands for one.
pub open spec fn connections_named(text: Option<Seq<char>>) -> Option<u32> {
    match text {
        Some(text) => match unsigned_value(text, u32::MAX as nat) {
            Ok(n) => Some(n as u32),
            Err(_) => None,
        },
        None => None,
    }
}

/// The parameters that a text stands for, if it stands for any.
pub open spec fn throttle_set(text: Option<Seq<char>>) -> Option<Throttle> {
    match text {
        Some(text) => match throttle_named(text) {
            Ok(throttle) => Some(throttle),
            Err(_) => None,
        },
        None => None,
    }
}

/// The policy that a text names, or the default one.
pub open spec fn retry_set(text: Option<Seq<char>>) -> RetrySetting {
    match text {
        Some(text) => match retry_named(lowercase(text)) {
            Ok(retry) => retry,
            Err(_) => RetrySetting::Default,
        },
        None => RetrySetting::Default,
    }
}

/// Looks a key up and takes it out of the settings.
fn take_setting(settings: &mut Table<String>, key: &str) -> (r: Option<String>)
    ensures
        text_map(final(settings)@) == text_map(old(settings)@).remove(key@),
        option_view(r) == setting(text_map(old(settings)@), key@),
{
    let r = settings.remove(key);
    proof {
        assert(text_map(settings@) =~= text_map(old(settings)@).remove(key@));
    }
    r
}

impl From<Scheme> for OpenDALConfig {
    fn from(value: Scheme) -> (r: OpenDALConfig) {
        OpenDALConfig {
            config: value,
            retry: RetrySetting::Default,
            connections: None,
            throttle: None,
        }
    }
}

impl vstd::std_specs::convert::FromSpecImpl<Scheme> for OpenDALConfig {
    open spec fn obeys_from_spec() -> bool {
        true
    }

    open spec fn from_spec(value: Scheme) -> OpenDALConfig {
        OpenDALConfig {
            config: value,
            retry: RetrySetting::Default,
            connections: None,
            throttle: None,
        }
    }
}

impl OpenDALConfig {
    /// Creates an [`OpenDALConfig`] from pairs of keys and values.
    ///
    /// A field that is not valid is skipped, and no error is returned for it.
    pub fn from_iter(scheme: &str, dict: Vec<(String, String)>) -> (r: OpenDALConfig)
        ensures
            ({
                let settings = collected(pair_views(dict@));
                &&& r.connections == connections_named(connections_set(settings))
                &&& r.throttle == throttle_set(setting(settings, "throttle"@))
                &&& r.retry == retry_set(setting(settings, "retry"@))
                &&& r.config.name@ == scheme@
                &&& r.config@.options == service_settings(settings)
                &&& setting(settings, "retry"@) matches Some(text) ==> (ascii(text) ==> lowercase(
                    text,
                ) == ascii_lowercase(text))
                &&& setting(settings, "throttle"@) matches Some(text) ==> (forall|t: Throttle|
                    text == #[trigger] t.exact_text() ==> r.throttle == Some(t))
                &&& setting(settings, "retry"@) matches Some(text) ==> (forall|s: RetrySetting|
                    text == #[trigger] s.text() ==> r.retry == s)
                &&& connections_set(settings) matches Some(text) ==> (forall|n: u32|
                    text == #[trigger] decimal(n as nat) ==> r.connections == Some(n))
            }),
    {
        let mut map: Table<String> = Table::new();
        let n: usize = dict.len();
        let mut i: usize = 0;
        let ghost pairs = pair_views(dict@);
        proof {
            assert(pairs.take(0) =~= Seq::empty());
            assert(text_map(map@) =~= collected(pairs.take(0)));
        }
        while i < n
            invariant
                i <= n,
                n == dict@.len(),
                pairs == pair_views(dict@),
                text_map(map@) == collected(pairs.take(i as int)),
            decreases n - i,
        {
            let ghost before = map@;
            let key = dict[i].0.clone();
            let value = dict[i].1.clone();
            map.insert(key, value);
            proof {
                assert(text_map(map@) =~= text_map(before).insert(key@, value@));
                assert(pairs.take(i + 1).drop_last() =~= pairs.take(i as int));
                assert(pairs.take(i + 1).last() == (key@, value@));
            }
            i = i + 1;
        }
        let ghost settings = collected(pairs);
        proof {
            assert(pairs.take(n as int) =~= pairs);
            reveal_strlit("connections");
            reveal_strlit("max_connections");
            reveal_strlit("throttle");
            reveal_strlit("retry");
            assert("throttle"@ != "connections"@ && "throttle"@ != "max_connections"@) by {
                assert("throttle"@[0] == 't');
            }
            assert("retry"@ != "connections"@ && "retry"@ != "max_connections"@ && "retry"@
                != "throttle"@) by {
                assert("retry"@[0] == 'r');
            }
        }
        let text = match take_setting(&mut map, "connections") {
            Some(text) => Some(text),
            None => {
                proof {
                    assert(settings.remove("connections"@) =~= settings);
                }
                take_setting(&mut map, "max_connections")
            },
        };
        let connections = match text {
            Some(text) => match parse_unsigned(text.as_str(), u32::MAX as u64) {
                Ok(n) => Some(n as u32),
                Err(_) => None,
            },
            None => None,
        };
        let throttle = match take_setting(&mut map, "throttle") {
            Some(text) => Some(Throttle::from_str(text.as_str())),
            None => None,
        };
        let retry = match take_setting(&mut map, "retry") {
            Some(text) => Some(RetrySetting::from_str(text.as_str())),
            None => None,
        };
        proof {
            if let Some(text) = setting(settings, "retry"@) {
                assert forall|s: RetrySetting| text == #[trigger] s.text() implies retry_set(
                    Some(text),
                ) == s by {
                    law_retry_round_trip(s);
                }
            }
            if let Some(text) = connections_set(settings) {
                assert forall|n: u32| text == #[trigger] decimal(
                    n as nat,
                ) implies connections_named(Some(text)) == Some(n) by {
                    law_decimal_round_trip(n as nat, u32::MAX as nat);
                }
            }
        }
        OpenDALConfig::from_settings(Scheme::dynamic(scheme, map), connections, throttle, retry)
    }

    /// Creates a configuration from settings that were read before. One that could not be read
    /// counts as not given.
    pub fn from_settings(
        config: Scheme,
        connections: Option<u32>,
        throttle: Option<Result<Throttle, Failure>>,
        retry: Option<Result<RetrySetting, Failure>>,
    ) -> (r: OpenDALConfig)
        ensures
            r.config == config,
            r.connections == connections,
            r.throttle == (match throttle {
                Some(Ok(throttle)) => Some(throttle),
                _ => None,
            }),
            r.retry == (match retry {
                Some(Ok(retry)) => retry,
                _ => RetrySetting::Default,
            }),
    {
        OpenDALConfig {
            connections,
            throttle: match throttle {
                Some(Ok(throttle)) => Some(throttle),
                _ => None,
            },
            retry: match retry {
                Some(Ok(retry)) => retry,
                _ => RetrySetting::Default,
            },
            config,
        }
    }

    /// Creates a new configuration for a [`Scheme`].
    pub fn new(be: &Scheme) -> (r: OpenDALConfig)
        ensures
            r.config@ == be@,
            r.config.options.keys() == be.options.keys(),
            r.retry == RetrySetting::Default,
            r.connections is None,
            r.throttle is None,
    {
        OpenDALConfig {
            config: be.clone(),
            retry: RetrySetting::Default,
            connections: None,
            throttle: None,
        }
    }

    /// The [`Scheme`] of this configuration.
    pub fn scheme(&self) -> (r: &Scheme)
        ensures
            *r == self.config,
    {
        &self.config
    }

    /// The same configuration with another number of connections.
    pub fn connections(self, connections: Option<u32>) -> (r: OpenDALConfig)
        ensures
            r == (OpenDALConfig { connections, ..self }),
    {
        OpenDALConfig { connections, ..self }
    }

    /// The same configuration with other throttling parameters.
    pub fn throttle(self, throttle: Option<Throttle>) -> (r: OpenDALConfig)
        ensures
            r == (OpenDALConfig { throttle, ..self }),
    {
        OpenDALConfig { throttle, ..self }
    }

    /// The same configuration with another retry policy.
    pub fn retry(self, retry: RetrySetting) -> (r: OpenDALConfig)
        ensures
            r == (OpenDALConfig { retry, ..self }),
    {
        OpenDALConfig { retry, ..self }
    }

    /// Whether the rates that are set can be used: a rate of zero lets nothing pass.
    pub open spec fn usable(self) -> bool {
        self.throttle matches Some(t) ==> t.bandwidth > 0 && t.burst > 0
    }

    /// Tells whether the rates that are set can be used.
    pub fn is_usable(&self) -> (r: bool)
        ensures
            r == self.usable(),
    {
        match self.throttle {
            Some(t) => t.bandwidth > 0 && t.burst > 0,
            None => true,
        }
    }

    /// The layers that the configuration asks for, the innermost first.
    pub open spec fn layers(self) -> Seq<LayerSetting> {
        let retry = seq![LayerSetting::Retry(self.retry.times(DEFAULT_RETRIES))];
        let concurrency = match self.connections {
            Some(n) => retry.push(LayerSetting::Concurrency(n as usize)),
            None => retry,
        };
        match self.throttle {
            Some(t) => concurrency.push(LayerSetting::Bandwidth(t.bandwidth, t.burst)),
            None => concurrency,
        }
    }

    /// Puts the layers that the configuration asks for on an operator, or hands on the error
    /// that came in its place.
    pub fn layered(&self, outcome: Result<opendal::Operator, VfsError>) -> (r: Result<
        opendal::Operator,
        VfsError,
    >)
        requires
            outcome is Ok ==> self.usable(),
        ensures
            match outcome {
                Ok(base) => r matches Ok(op) && {
                    &&& requested_scheme(op) == requested_scheme(base)
                    &&& requested_options(op) == requested_options(base)
                    &&& operator_layers(op) == operator_layers(base) + self.layers()
                },
                Err(e) => r == Err::<opendal::Operator, VfsError>(e),
            },
    {
        let base = match outcome {
            Ok(base) => base,
            Err(e) => {
                return Err(e);
            },
        };
        let ghost start = operator_layers(base);
        let mut op = layer_retry(base, self.retry.get_setting(DEFAULT_RETRIES));
        if let Some(n) = self.connections {
            op = layer_concurrency(op, n as usize);
        }
        if let Some(t) = self.throttle {
            op = layer_throttle(op, t.bandwidth, t.burst);
        }
        proof {
            assert(operator_layers(op) =~= start + self.layers());
        }
        Ok(op)
    }

    /// Creates an operator from the current config.
    pub fn operator(&self) -> (r: Result<opendal::Operator, VfsError>)
        requires
            self.usable(),
        ensures
            match r {
                Ok(op) => {
                    &&& requested_scheme(op) == self.config.name@
                    &&& requested_options(op) == listing(self.config.options)
                    &&& operator_layers(op) == self.layers()
                },
                Err(e) => self.config.refused_with(e@),
            },
    {
        let outcome = self.scheme().operator();
        let r = self.layered(outcome);
        proof {
            if r is Ok {
                assert(operator_layers(r->Ok_0) =~= self.layers());
            }
        }
        r
    }
}

/// The settings that this library reads do not reach the service, and all others do, unchanged.
/// The second name of the number of connections is read only where the first one is not set.
pub proof fn law_other_settings_reach_the_service(
    settings: Map<Seq<char>, Seq<char>>,
    key: Seq<char>,
)
    ensures
        setting(service_settings(settings), key) == (if key == "connections"@ || key == "throttle"@
            || key == "retry"@ || key == "max_connections"@ && !settings.contains_key(
            "connections"@,
        ) {
            None
        } else {
            setting(settings, key)
        }),
{
    reveal_strlit("connections");
    reveal_strlit("max_connections");
    reveal_strlit("throttle");
    reveal_strlit("retry");
}

/// Of several values for one key the last one counts, and it counts for that key alone.
pub proof fn law_last_setting_counts(
    pairs: Seq<(Seq<char>, Seq<char>)>,
    pair: (Seq<char>, Seq<char>),
    key: Seq<char>,
)
    ensures
        setting(collected(pairs.push(pair)), pair.0) == Some(pair.1),
        key != pair.0 ==> setting(collected(pairs.push(pair)), key) == setting(
            collected(pairs),
            key,
        ),
{
    assert(pairs.push(pair).drop_last() =~= pairs);
}

/// The value of a key is the one of its last pair, whatever stands before that pair and whatever
/// other keys follow, and a key that no pair has is not set.
pub proof fn law_setting_is_the_last_of_its_key(
    before: Seq<(Seq<char>, Seq<char>)>,
    key: Seq<char>,
    value: Seq<char>,
    after: Seq<(Seq<char>, Seq<char>)>,
)
    requires
        forall|i: int| 0 <= i < after.len() ==> (#[trigger] after[i]).0 != key,
    ensures
        setting(collected(before + seq![(key, value)] + after), key) == Some(value),
        setting(collected(after), key) is None,
        collected(before + seq![(key, value)] + after).contains_key(key),
        collected(before + seq![(key, value)] + after)[key] == value,
        !collected(after).contains_key(key),
    decreases after.len(),
{
    let all = before + seq![(key, value)] + after;
    if after.len() == 0 {
        assert(all =~= before.push((key, value)));
        assert(all.drop_last() =~= before);
    } else {
        let shorter = after.drop_last();
        assert forall|i: int| 0 <= i < shorter.len() implies (#[trigger] shorter[i]).0 != key by {
            assert(shorter[i] == after[i]);
        }
        assert(after[after.len() - 1].0 != key);
        law_setting_is_the_last_of_its_key(before, key, value, shorter);
        assert(all.drop_last() =~= before + seq![(key, value)] + shorter);
        assert(all.last() == after.last());
    }
}

/// A setting is what its map says.
pub proof fn law_setting_is_looked_up(settings: Map<Seq<char>, Seq<char>>, key: Seq<char>)
    ensures
        setting(settings, key) is Some <==> settings.contains_key(key),
        settings.contains_key(key) ==> setting(settings, key) == Some(settings[key]),
        settings.contains_key("connections"@) ==> connections_set(settings) == Some(
            settings["connections"@],
        ),
        !settings.contains_key("connections"@) && settings.contains_key("max_connections"@)
            ==> connections_set(settings) == Some(settings["max_connections"@]),
        !settings.contains_key("connections"@) && !settings.contains_key("max_connections"@)
            ==> connections_set(settings) is None,
{
}

/// The number of connections is the number that its text denotes: every number up to the largest
/// is read, and a text that is no such number counts as not given.
pub proof fn law_connections_are_read(text: Seq<char>, n: u32)
    ensures
        connections_named(Some(decimal(n as nat))) == Some(n),
        connections_named(None) is None,
        match unsigned_value(text, u32::MAX as nat) {
            Ok(v) => connections_named(Some(text)) == Some(v as u32),
            Err(_) => connections_named(Some(text)) is None,
        },
{
    law_decimal_round_trip(n as nat, u32::MAX as nat);
}

/// A retry policy that is set by the text that names it is the policy of the configuration,
/// whatever else is set. The lower case of such a text is that of its ASCII letters.
pub proof fn law_retry_setting_is_read(
    before: Seq<(Seq<char>, Seq<char>)>,
    policy: RetrySetting,
    after: Seq<(Seq<char>, Seq<char>)>,
)
    requires
        forall|i: int| 0 <= i < after.len() ==> (#[trigger] after[i]).0 != "retry"@,
        ascii(policy.text()) ==> lowercase(policy.text()) == ascii_lowercase(policy.text()),
    ensures
        retry_set(
            setting(collected(before + seq![("retry"@, policy.text())] + after), "retry"@),
        ) == policy,
{
    law_setting_is_the_last_of_its_key(before, "retry"@, policy.text(), after);
    law_retry_round_trip(policy);
}

/// Throttling parameters and a retry policy are those that their texts stand for, and a text that
/// stands for none counts as not given.
pub proof fn law_invalid_settings_are_skipped(text: Seq<char>)
    ensures
        match throttle_named(text) {
            Ok(throttle) => throttle_set(Some(text)) == Some(throttle),
            Err(_) => throttle_set(Some(text)) is None,
        },
        match retry_named(lowercase(text)) {
            Ok(retry) => retry_set(Some(text)) == retry,
            Err(_) => retry_set(Some(text)) == RetrySetting::Default,
        },
        throttle_set(None) is None,
        retry_set(None) == RetrySetting::Default,
{
}

/// Each field of a configuration asks for its own layer, whatever the others say: the retries
/// always have one, the connections and the rates exactly if they are set. The retries are the
/// innermost, and the rates lie around the connections.
pub proof fn law_each_field_has_its_layer(config: OpenDALConfig)
    ensures
        ({
            let layers = config.layers();
            &&& layers[0] == LayerSetting::Retry(
                match config.retry {
                    RetrySetting::Disabled => 0,
                    RetrySetting::Default => 5,
                    RetrySetting::Count(n) => n,
                },
            )
            &&& forall|i: int| 0 < i < layers.len() ==> !(#[trigger] layers[i] is Retry)
            &&& forall|n: usize| #[trigger]
                layers.contains(LayerSetting::Concurrency(n)) <==> (config.connections is Some
                    && config.connections->0 as usize == n)
            &&& forall|b: u32, u: u32| #[trigger]
                layers.contains(LayerSetting::Bandwidth(b, u)) <==> (config.throttle is Some
                    && config.throttle->0.bandwidth == b && config.throttle->0.burst == u)
            &&& layers.len() == 1 + (if config.connections is Some {
                1int
            } else {
                0
            }) + (if config.throttle is Some {
                1int
            } else {
                0
            })
            &&& config.throttle is Some ==> layers[layers.len() - 1] is Bandwidth
        }),
{
    let layers = config.layers();
    if let Some(n) = config.connections {
        assert(layers[1] == LayerSetting::Concurrency(n as usize));
    }
    if let Some(t) = config.throttle {
        assert(layers[layers.len() - 1] == LayerSetting::Bandwidth(t.bandwidth, t.burst));
    }
}

/// Rates can be used exactly if none is set or both are more than zero.
pub proof fn law_zero_rates_cannot_be_used(config: OpenDALConfig)
    ensures
        config.throttle is None ==> config.usable(),
        config.throttle is Some ==> (config.usable() <==> config.throttle->0.bandwidth != 0
            && config.throttle->0.burst != 0),
{
}

/// A copy of a configuration says the same in each field.
pub proof fn law_same_config_says_the_same(a: OpenDALConfig, b: OpenDALConfig, key: Seq<char>)
    requires
        a.same_config(b),
    ensures
        a.connections == b.connections,
        a.throttle == b.throttle,
        a.retry == b.retry,
        a.config.name@ == b.config.name@,
        a.config.options@.contains_key(key) <==> b.config.options@.contains_key(key),
        a.config.options@.contains_key(key) ==> a.config.options@[key]@
            == b.config.options@[key]@,
{
    let x = text_map(a.config.options@);
    let y = text_map(b.config.options@);
    assert(a.config@.options == b.config@.options);
    assert(x.contains_key(key) == y.contains_key(key));
    law_text_map_has_each_entry(a.config.options@, key);
    law_text_map_has_each_entry(b.config.options@, key);
    assert(x[key] == y[key]);
}

/// What a service says is its name and its settings.
pub proof fn law_scheme_says_its_fields(s: Scheme, key: Seq<char>)
    ensures
        s@.name == s.name@,
        s@.options.contains_key(key) <==> s.options@.contains_key(key),
        s.options@.contains_key(key) ==> s@.options[key] == s.options@[key]@,
{
}

/// An error for a service comes from OpenDAL, from the call with the service's own name and with
/// each of its settings.
pub proof fn law_refusal_is_for_the_service(s: Scheme, error: VfsErrorView, i: int)
    requires
        s.refused_with(error),
    ensures
        error is Backend,
        refused_scheme(error->Backend_0) == s.name@,
        refused_options(error->Backend_0).len() == s.options.keys().len(),
        0 <= i < s.options.keys().len() ==> refused_options(error->Backend_0)[i] == (
            s.options.keys()[i],
            s.options@[s.options.keys()[i]]@,
        ),
{
}

} // verus!
