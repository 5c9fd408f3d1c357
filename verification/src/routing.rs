//! The routing table and the resolution of destinations: from the name of a
//! municipality or a continent to the endpoint of the node that serves it.

use vstd::prelude::*;

use crate::error::LedgerError;
use crate::text::{concat2, str_eq};
use crate::transaction::{
    spec_city_of, spec_continent_of, spec_well_formed_municipality, split_municipality,
};

verus! {

/// The port on which a node listens where its configuration names none.
pub const DEFAULT_FLASK_PORT: u16 = 1034;

/// The port of the store of a node where its configuration names none.
pub const DEFAULT_MONGO_PORT: u16 = 10034;

/// The tiers through which a transaction is escalated.
#[derive(Clone, Copy, Debug, PartialEq, Eq, Structural)]
pub enum Tier {
    Municipal,
    Continental,
    Global,
}

/// The tier above `tier`; the global tier has none.
pub open spec fn spec_next_tier(tier: Tier) -> Option<Tier> {
    match tier {
        Tier::Municipal => Some(Tier::Continental),
        Tier::Continental => Some(Tier::Global),
        Tier::Global => None,
    }
}

/// The tier to which a node of `tier` forwards.
pub fn next_tier(tier: Tier) -> (above: Option<Tier>)
    ensures
        above == spec_next_tier(tier),
{
    match tier {
        Tier::Municipal => Some(Tier::Continental),
        Tier::Continental => Some(Tier::Global),
        Tier::Global => None,
    }
}

/// The configuration of one city.
#[derive(Debug)]
pub struct City {
    pub name: String,
    /// The port of the city's store, in decimal.
    pub city_port: String,
    /// The port on which the city's node listens, in decimal.
    pub city_flask_port: String,
}

/// The configuration of one continent and of its cities.
#[derive(Debug)]
pub struct ContinentConfig {
    pub name: String,
    /// The port of the continent's store, in decimal.
    pub mongodb_port: String,
    /// The port on which the continent's node listens, in decimal.
    pub flask_port: String,
    pub cities: Vec<City>,
}

/// The routing table: the continents by name, among them possibly one
/// named `Default`, and the endpoint of the global tier.
#[derive(Debug)]
pub struct RoutingTable {
    /// The continents by name. Where a name occurs twice, the first entry
    /// is the one that counts, and so for the cities of a continent.
    pub continents: Vec<ContinentConfig>,
    pub global_chain_url: String,
}

/// The address of the archive that serves one continent.
#[derive(Debug)]
pub struct ArchiveAddress {
    pub name: String,
    pub host: String,
    pub port: u16,
}

/// The addresses of the archives by continent, and the one for the
/// continents that are not listed.
#[derive(Debug)]
pub struct ArchiveConfig {
    pub continents: Vec<ArchiveAddress>,
    pub default_host: String,
    pub default_port: u16,
}

/// The place of the first archive of the continent `name` at or after
/// `from`, or the number of archives where there is none.
pub open spec fn spec_archive_index(archives: Seq<ArchiveAddress>, name: Seq<char>, from: int)
    -> int
    decreases archives.len() - from,
{
    if from < 0 || from >= archives.len() {
        archives.len() as int
    } else if archives[from].name@ == name {
        from
    } else {
        spec_archive_index(archives, name, from + 1)
    }
}

proof fn lemma_archive_index_is(archives: Seq<ArchiveAddress>, name: Seq<char>, from: int, at: int)
    requires
        0 <= from <= at <= archives.len(),
        at < archives.len() ==> archives[at].name@ == name,
        forall|j: int| from <= j < at ==> (#[trigger] archives[j]).name@ != name,
    ensures
        spec_archive_index(archives, name, from) == at,
    decreases at - from,
{
    if from < at {
        assert(archives[from].name@ != name);
        lemma_archive_index_is(archives, name, from + 1, at);
    }
}

/// Tells host and port of the archive that serves `continent`: its own
/// where it is listed, the default one otherwise.
pub fn get_immudb_address(config: &ArchiveConfig, continent: &str) -> (address: (String, u16))
    ensures
        ({
            let at = spec_archive_index(config.continents@, continent@, 0);
            if at < config.continents@.len() {
                address.0@ == config.continents@[at].host@ && address.1
                    == config.continents@[at].port
            } else {
                address.0@ == config.default_host@ && address.1 == config.default_port
            }
        }),
{
    let mut i: usize = 0;
    while i < config.continents.len()
        invariant
            i <= config.continents.len(),
            forall|j: int| 0 <= j < i ==> (#[trigger] config.continents@[j]).name@ != continent@,
        decreases config.continents.len() - i,
    {
        if str_eq(config.continents[i].name.as_str(), continent) {
            proof {
                lemma_archive_index_is(config.continents@, continent@, 0, i as int);
            }
            return (config.continents[i].host.clone(), config.continents[i].port);
        }
        i += 1;
    }
    proof {
        lemma_archive_index_is(config.continents@, continent@, 0, i as int);
    }
    (config.default_host.clone(), config.default_port)
}

/// The value of a decimal digit.
pub open spec fn spec_digit_value(c: char) -> Option<int> {
    if c == '0' {
        Some(0)
    } else if c == '1' {
        Some(1)
    } else if c == '2' {
        Some(2)
    } else if c == '3' {
        Some(3)
    } else if c == '4' {
        Some(4)
    } else if c == '5' {
        Some(5)
    } else if c == '6' {
        Some(6)
    } else if c == '7' {
        Some(7)
    } else if c == '8' {
        Some(8)
    } else if c == '9' {
        Some(9)
    } else {
        None
    }
}

fn digit_value(c: char) -> (value: Option<u32>)
    ensures
        match value {
            Some(v) => spec_digit_value(c) == Some(v as int) && v < 10,
            None => spec_digit_value(c) is None,
        },
{
    if c == '0' {
        Some(0)
    } else if c == '1' {
        Some(1)
    } else if c == '2' {
        Some(2)
    } else if c == '3' {
        Some(3)
    } else if c == '4' {
        Some(4)
    } else if c == '5' {
        Some(5)
    } else if c == '6' {
        Some(6)
    } else if c == '7' {
        Some(7)
    } else if c == '8' {
        Some(8)
    } else if c == '9' {
        Some(9)
    } else {
        None
    }
}

/// The number that a non-empty run of decimal digits writes.
pub open spec fn spec_number(s: Seq<char>) -> Option<int>
    decreases s.len(),
{
    if s.len() == 0 {
        None
    } else if s.len() == 1 {
        spec_digit_value(s[0])
    } else {
        match (spec_number(s.drop_last()), spec_digit_value(s.last())) {
            (Some(front), Some(digit)) => Some(10 * front + digit),
            _ => None,
        }
    }
}

/// The port that `text` writes: an optional `+`, then decimal digits of a
/// number up to 65535.
pub open spec fn spec_port(text: Seq<char>) -> Option<u16> {
    let digits = if text.len() > 0 && text[0] == '+' {
        text.subrange(1, text.len() as int)
    } else {
        text
    };
    match spec_number(digits) {
        Some(v) => if v <= 65535 {
            Some(v as u16)
        } else {
            None
        },
        None => None,
    }
}

/// Where digits write a number, every non-empty run of its first digits
/// writes one that is no larger.
pub proof fn lemma_number_prefix(s: Seq<char>, k: int)
    requires
        1 <= k <= s.len(),
        spec_number(s) is Some,
    ensures
        spec_number(s.take(k)) is Some,
        0 <= spec_number(s.take(k))->0 <= spec_number(s)->0,
    decreases s.len(),
{
    if k == s.len() {
        assert(s.take(k) =~= s);
        if s.len() > 1 {
            lemma_number_prefix(s.drop_last(), s.len() - 1);
            assert(s.drop_last().take(s.len() - 1) =~= s.drop_last());
        }
    } else {
        assert(s.drop_last().take(k) =~= s.take(k));
        lemma_number_prefix(s.drop_last(), k);
        lemma_number_prefix(s.drop_last(), s.len() - 1);
        assert(s.drop_last().take(s.len() - 1) =~= s.drop_last());
    }
}

/// Reads a port number in decimal.
#[verifier::loop_isolation(false)]
pub fn parse_port(text: &str) -> (port: Option<u16>)
    ensures
        port == spec_port(text@),
{
    let n = text.unicode_len();
    let start: usize = if n > 0 && text.get_char(0) == '+' {
        1
    } else {
        0
    };
    let ghost digits = text@.subrange(start as int, n as int);
    proof {
        if start == 0 {
            assert(digits =~= text@);
        }
    }
    if start >= n {
        assert(spec_number(digits) is None);
        return None;
    }
    let mut value: u32 = 0;
    let mut i: usize = start;
    while i < n
        invariant
            start <= i <= n,
            start < n,
            n == text@.len(),
            digits == text@.subrange(start as int, n as int),
            value <= 65535,
            i > start ==> spec_number(digits.take(i - start)) == Some(value as int),
            i == start ==> value == 0,
        decreases n - i,
    {
        let c = text.get_char(i);
        proof {
            assert(digits[i - start] == c);
            assert(digits.take(i - start + 1).drop_last() =~= digits.take(i - start));
            assert(digits.take(i - start + 1).last() == c);
        }
        match digit_value(c) {
            None => {
                proof {
                    let prefix = digits.take(i - start + 1);
                    assert(spec_number(prefix) is None);
                    if spec_number(digits) is Some {
                        lemma_number_prefix(digits, i - start + 1);
                    }
                    assert(spec_number(digits) is None);
                }
                return None;
            },
            Some(d) => {
                let next = value * 10 + d;
                proof {
                    if i == start {
                        assert(digits.take(1)[0] == c);
                    }
                    assert(spec_number(digits.take(i - start + 1)) == Some(next as int));
                }
                if next > 65535 {
                    proof {
                        if spec_number(digits) is Some {
                            lemma_number_prefix(digits, i - start + 1);
                        }
                    }
                    return None;
                }
                value = next;
            },
        }
        i += 1;
    }
    assert(digits.take(n - start) =~= digits);
    Some(value as u16)
}

/// The place of the first continent named `name` at or after `from`, or the
/// number of continents where there is none.
pub open spec fn spec_continent_index(table: Seq<ContinentConfig>, name: Seq<char>, from: int)
    -> int
    decreases table.len() - from,
{
    if from < 0 || from >= table.len() {
        table.len() as int
    } else if table[from].name@ == name {
        from
    } else {
        spec_continent_index(table, name, from + 1)
    }
}

/// The place of the first city named `name` at or after `from`, or the
/// number of cities where there is none.
pub open spec fn spec_city_index(cities: Seq<City>, name: Seq<char>, from: int) -> int
    decreases cities.len() - from,
{
    if from < 0 || from >= cities.len() {
        cities.len() as int
    } else if cities[from].name@ == name {
        from
    } else {
        spec_city_index(cities, name, from + 1)
    }
}

/// The place of the configuration that serves the continent `name`: its
/// own, or the one named `Default` where it has none.
pub open spec fn spec_serving_index(table: Seq<ContinentConfig>, name: Seq<char>) -> int {
    if spec_continent_index(table, name, 0) < table.len() {
        spec_continent_index(table, name, 0)
    } else {
        spec_continent_index(table, "Default"@, 0)
    }
}

proof fn lemma_continent_index_is(table: Seq<ContinentConfig>, name: Seq<char>, from: int, at: int)
    requires
        0 <= from <= at <= table.len(),
        at < table.len() ==> table[at].name@ == name,
        forall|j: int| from <= j < at ==> (#[trigger] table[j]).name@ != name,
    ensures
        spec_continent_index(table, name, from) == at,
    decreases at - from,
{
    if from < at {
        assert(table[from].name@ != name);
        lemma_continent_index_is(table, name, from + 1, at);
    }
}

proof fn lemma_city_index_is(cities: Seq<City>, name: Seq<char>, from: int, at: int)
    requires
        0 <= from <= at <= cities.len(),
        at < cities.len() ==> cities[at].name@ == name,
        forall|j: int| from <= j < at ==> (#[trigger] cities[j]).name@ != name,
    ensures
        spec_city_index(cities, name, from) == at,
    decreases at - from,
{
    if from < at {
        assert(cities[from].name@ != name);
        lemma_city_index_is(cities, name, from + 1, at);
    }
}

/// Finds the first continent named `name`.
pub fn find_continent(table: &Vec<ContinentConfig>, name: &str) -> (found: Option<usize>)
    ensures
        match found {
            Some(i) => i < table@.len() && i == spec_continent_index(table@, name@, 0),
            None => spec_continent_index(table@, name@, 0) == table@.len(),
        },
{
    let mut i: usize = 0;
    while i < table.len()
        invariant
            i <= table.len(),
            forall|j: int| 0 <= j < i ==> (#[trigger] table@[j]).name@ != name@,
        decreases table.len() - i,
    {
        if str_eq(table[i].name.as_str(), name) {
            proof {
                lemma_continent_index_is(table@, name@, 0, i as int);
            }
            return Some(i);
        }
        i += 1;
    }
    proof {
        lemma_continent_index_is(table@, name@, 0, i as int);
    }
    None
}

/// Finds the first city named `name`.
pub fn find_city(cities: &Vec<City>, name: &str) -> (found: Option<usize>)
    ensures
        match found {
            Some(i) => i < cities@.len() && i == spec_city_index(cities@, name@, 0),
            None => spec_city_index(cities@, name@, 0) == cities@.len(),
        },
{
    let mut i: usize = 0;
    while i < cities.len()
        invariant
            i <= cities.len(),
            forall|j: int| 0 <= j < i ==> (#[trigger] cities@[j]).name@ != name@,
        decreases cities.len() - i,
    {
        if str_eq(cities[i].name.as_str(), name) {
            proof {
                lemma_city_index_is(cities@, name@, 0, i as int);
            }
            return Some(i);
        }
        i += 1;
    }
    proof {
        lemma_city_index_is(cities@, name@, 0, i as int);
    }
    None
}

/// Finds the configuration that serves the continent `name`: its own, or
/// the one named `Default`.
pub fn find_serving(table: &Vec<ContinentConfig>, name: &str) -> (found: Option<usize>)
    ensures
        match found {
            Some(i) => i < table@.len() && i == spec_serving_index(table@, name@),
            None => spec_serving_index(table@, name@) == table@.len(),
        },
{
    match find_continent(table, name) {
        Some(i) => Some(i),
        None => find_continent(table, "Default"),
    }
}

/// The view of an optional text.
pub open spec fn spec_text(value: Option<String>) -> Option<Seq<char>> {
    match value {
        Some(text) => Some(text@),
        None => None,
    }
}

/// The endpoint of the node of the municipality `municipality`: the city
/// is looked up in the configuration of its continent, or in the one named
/// `Default` where the continent has none.
pub open spec fn spec_municipal_chain_url(table: Seq<ContinentConfig>, municipality: Seq<char>)
    -> Option<Seq<char>> {
    let at = spec_serving_index(table, spec_continent_of(municipality));
    if !spec_well_formed_municipality(municipality) || at >= table.len() {
        None
    } else {
        let cities = table[at].cities@;
        let city = spec_city_index(cities, spec_city_of(municipality), 0);
        if city < cities.len() {
            Some("http://localhost:"@ + cities[city].city_flask_port@)
        } else {
            None
        }
    }
}

/// Resolves the endpoint of the node of a municipality.
pub fn determine_municipal_chain_url(table: &RoutingTable, municipality: &str) -> (url: Option<
    String,
>)
    ensures
        spec_text(url) == spec_municipal_chain_url(table.continents@, municipality@),
{
    match split_municipality(municipality) {
        None => None,
        Some((continent, city_name)) => match find_serving(&table.continents, continent.as_str()) {
            None => None,
            Some(at) => {
                let cities = &table.continents[at].cities;
                match find_city(cities, city_name.as_str()) {
                    None => None,
                    Some(city) => Some(
                        concat2("http://localhost:", cities[city].city_flask_port.as_str()),
                    ),
                }
            },
        },
    }
}

/// The endpoint of the node of the continent `continent`, from its own
/// configuration or from the one named `Default`.
pub open spec fn spec_continental_chain_url(table: Seq<ContinentConfig>, continent: Seq<char>)
    -> Option<Seq<char>> {
    let at = spec_serving_index(table, continent);
    if at < table.len() {
        Some("http://localhost:"@ + table[at].flask_port@)
    } else {
        None
    }
}

/// Resolves the endpoint of the node of a continent.
pub fn get_continental_chain_url(table: &RoutingTable, continent: &str) -> (url: Option<String>)
    ensures
        spec_text(url) == spec_continental_chain_url(table.continents@, continent@),
{
    match find_serving(&table.continents, continent) {
        None => None,
        Some(at) => Some(concat2("http://localhost:", table.continents[at].flask_port.as_str())),
    }
}

/// The endpoint of the continental node to which the transactions of a
/// municipality go up: that of its continent, or that of `Default` where
/// the continent has no configuration of its own.
pub open spec fn spec_continent_from_municipality(
    table: Seq<ContinentConfig>,
    municipality: Seq<char>,
) -> Option<Seq<char>> {
    let at = spec_serving_index(table, spec_continent_of(municipality));
    if spec_well_formed_municipality(municipality) && at < table.len() {
        Some("http://127.0.0.1:"@ + table[at].flask_port@)
    } else {
        None
    }
}

/// Resolves the endpoint of the continental node to which the
/// transactions of a municipality go up.
pub fn determine_continent_from_municipality(table: &RoutingTable, municipality: &str) -> (url:
    Option<String>)
    ensures
        spec_text(url) == spec_continent_from_municipality(table.continents@, municipality@),
{
    match split_municipality(municipality) {
        None => None,
        Some((continent, _city)) => match find_serving(&table.continents, continent.as_str()) {
            Some(at) => Some(concat2("http://127.0.0.1:", table.continents[at].flask_port.as_str())),
            None => None,
        },
    }
}

/// The port that `text` writes, or `fallback` where it writes none.
pub open spec fn spec_port_or(text: Seq<char>, fallback: u16) -> u16 {
    match spec_port(text) {
        Some(port) => port,
        None => fallback,
    }
}

/// Reads a port number, with `fallback` for a text that is none.
pub fn port_or(text: &str, fallback: u16) -> (port: u16)
    ensures
        port == spec_port_or(text@, fallback),
{
    match parse_port(text) {
        Some(port) => port,
        None => fallback,
    }
}

/// The port on which the node of `continent` listens: from its own
/// configuration or from `Default`, and `DEFAULT_FLASK_PORT` where neither
/// names a port.
pub open spec fn spec_flask_port(table: Seq<ContinentConfig>, continent: Seq<char>) -> u16 {
    let at = spec_serving_index(table, continent);
    if at < table.len() {
        spec_port_or(table[at].flask_port@, 1034)
    } else {
        1034
    }
}

/// Tells the port on which the node of `continent` listens.
pub fn get_flask_port(table: &RoutingTable, continent: &str) -> (port: u16)
    ensures
        port == spec_flask_port(table.continents@, continent@),
{
    match find_serving(&table.continents, continent) {
        Some(at) => port_or(table.continents[at].flask_port.as_str(), DEFAULT_FLASK_PORT),
        None => DEFAULT_FLASK_PORT,
    }
}

/// Reads the port on which a continent's node listens; `None` where the
/// configuration does not write a port.
pub fn get_rocket_port(config: &ContinentConfig) -> (port: Option<u16>)
    ensures
        port == spec_port(config.flask_port@),
{
    parse_port(config.flask_port.as_str())
}

/// The address of the store of `continent`, which must have a
/// configuration of its own.
pub open spec fn spec_mongo_uri(table: Seq<ContinentConfig>, continent: Seq<char>) -> Option<
    Seq<char>,
> {
    let at = spec_continent_index(table, continent, 0);
    if at < table.len() {
        Some("mongodb://localhost:"@ + table[at].mongodb_port@)
    } else {
        None
    }
}

/// Tells the address of the store of `continent`; a continent without a
/// configuration of its own is an unknown destination.
pub fn get_mongo_uri(table: &RoutingTable, continent: &str) -> (uri: Result<String, LedgerError>)
    ensures
        match uri {
            Ok(text) => spec_mongo_uri(table.continents@, continent@) == Some(text@),
            Err(e) => e == LedgerError::UnknownDestination && spec_mongo_uri(
                table.continents@,
                continent@,
            ) is None,
        },
{
    match find_continent(&table.continents, continent) {
        Some(at) => Ok(concat2("mongodb://localhost:", table.continents[at].mongodb_port.as_str())),
        None => Err(LedgerError::UnknownDestination),
    }
}

/// The port on which the node of a city listens and the port of its store:
/// those of the city where its continent lists it, with the defaults for
/// what the configuration does not write; both defaults otherwise.
pub open spec fn spec_city_ports(table: Seq<ContinentConfig>, name: Seq<char>) -> (u16, u16) {
    let own = spec_continent_index(table, spec_continent_of(name), 0);
    if own < table.len() {
        let cities = table[own].cities@;
        let city = spec_city_index(cities, spec_city_of(name), 0);
        if city < cities.len() {
            (
                spec_port_or(cities[city].city_flask_port@, 1034),
                spec_port_or(cities[city].city_port@, 10034),
            )
        } else {
            (1034, 10034)
        }
    } else {
        (1034, 10034)
    }
}

/// Tells, for a node named `Continent-City`, the port on which it listens
/// and the address of its store. A name of another form is refused.
pub fn get_city_ports_and_uri(table: &RoutingTable, continent_city: &str) -> (settings: Result<
    (u16, String),
    LedgerError,
>)
    ensures
        match settings {
            Ok((port, uri)) => {
                &&& spec_well_formed_municipality(continent_city@)
                &&& port == spec_city_ports(table.continents@, continent_city@).0
                &&& uri@ == "mongodb://localhost:"@ + crate::text::spec_decimal(
                    spec_city_ports(table.continents@, continent_city@).1 as nat,
                )
            },
            Err(e) => e == LedgerError::UnknownDestination && !spec_well_formed_municipality(
                continent_city@,
            ),
        },
{
    match split_municipality(continent_city) {
        None => Err(LedgerError::UnknownDestination),
        Some((continent, city_name)) => {
            let mut flask = DEFAULT_FLASK_PORT;
            let mut mongo = DEFAULT_MONGO_PORT;
            match find_continent(&table.continents, continent.as_str()) {
                None => {},
                Some(own) => {
                    let cities = &table.continents[own].cities;
                    match find_city(cities, city_name.as_str()) {
                        None => {},
                        Some(city) => {
                            flask =
                            port_or(cities[city].city_flask_port.as_str(), DEFAULT_FLASK_PORT);
                            mongo = port_or(cities[city].city_port.as_str(), DEFAULT_MONGO_PORT);
                        },
                    }
                },
            }
            let digits = crate::text::decimal(mongo as u64);
            Ok((flask, concat2("mongodb://localhost:", digits.as_str())))
        },
    }
}

/// The endpoints of the continents other than `current`, in the order of
/// the table.
pub open spec fn spec_other_chains(table: Seq<ContinentConfig>, current: Seq<char>) -> Seq<
    Seq<char>,
>
    decreases table.len(),
{
    if table.len() == 0 {
        Seq::empty()
    } else if table.last().name@ == current {
        spec_other_chains(table.drop_last(), current)
    } else {
        spec_other_chains(table.drop_last(), current).push(
            "http://127.0.0.1:"@ + table.last().flask_port@,
        )
    }
}

/// The continent that a node name stands in: the name up to its first
/// hyphen.
pub open spec fn spec_leading_part(name: Seq<char>) -> Seq<char> {
    name.subrange(0, crate::text::spec_find_char(name, '-', 0))
}

/// Lists the endpoints of the peers of the node named `current`: the nodes
/// of all continents but its own.
pub fn get_other_continental_chains(table: &RoutingTable, current: &str) -> (peers: Vec<String>)
    ensures
        peers@.len() == spec_other_chains(table.continents@, spec_leading_part(current@)).len(),
        forall|k: int|
            0 <= k < peers@.len() ==> (#[trigger] peers@[k])@ == spec_other_chains(
                table.continents@,
                spec_leading_part(current@),
            )[k],
{
    let cut = crate::text::find_char(current, '-', 0);
    let own = crate::text::slice_chars(current, 0, cut);
    let mut peers: Vec<String> = Vec::new();
    let mut i: usize = 0;
    assert(table.continents@.take(0) =~= Seq::<ContinentConfig>::empty());
    while i < table.continents.len()
        invariant
            i <= table.continents.len(),
            own@ == spec_leading_part(current@),
            peers@.len() == spec_other_chains(table.continents@.take(i as int), own@).len(),
            forall|k: int|
                0 <= k < peers@.len() ==> (#[trigger] peers@[k])@ == spec_other_chains(
                    table.continents@.take(i as int),
                    own@,
                )[k],
        decreases table.continents.len() - i,
    {
        proof {
            let next = table.continents@.take(i + 1);
            assert(next.drop_last() =~= table.continents@.take(i as int));
            assert(next.last() == table.continents@[i as int]);
        }
        if !str_eq(table.continents[i].name.as_str(), own.as_str()) {
            peers.push(concat2("http://127.0.0.1:", table.continents[i].flask_port.as_str()));
        }
        i += 1;
    }
    assert(table.continents@.take(i as int) =~= table.continents@);
    peers
}

/// The endpoint for `id`, the name of a municipality or of a continent: the
/// exact entry, or the one of `Default` where there is no exact entry. A
/// municipality has an exact entry where the table lists its city under its
/// continent, a continent where the table has its configuration.
pub open spec fn spec_resolve(table: Seq<ContinentConfig>, id: Seq<char>) -> Option<Seq<char>> {
    let fallback = spec_continent_index(table, "Default"@, 0);
    let exact = if spec_well_formed_municipality(id) {
        let own = spec_continent_index(table, spec_continent_of(id), 0);
        if own < table.len() && spec_city_index(table[own].cities@, spec_city_of(id), 0)
            < table[own].cities@.len() {
            Some(
                "http://localhost:"@ + table[own].cities@[spec_city_index(
                    table[own].cities@,
                    spec_city_of(id),
                    0,
                )].city_flask_port@,
            )
        } else {
            None
        }
    } else {
        let own = spec_continent_index(table, id, 0);
        if own < table.len() {
            Some("http://localhost:"@ + table[own].flask_port@)
        } else {
            None
        }
    };
    if exact is Some {
        exact
    } else if fallback < table.len() {
        Some("http://localhost:"@ + table[fallback].flask_port@)
    } else {
        None
    }
}

/// Resolves the endpoint for the name of a municipality or a continent.
/// Fails with `UnknownDestination` if and only if the table has neither an
/// exact entry nor one named `Default`.
pub fn resolve_target(table: &RoutingTable, id: &str) -> (endpoint: Result<String, LedgerError>)
    ensures
        match endpoint {
            Ok(url) => spec_resolve(table.continents@, id@) == Some(url@),
            Err(e) => e == LedgerError::UnknownDestination && spec_resolve(table.continents@, id@)
                is None,
        },
{
    let exact: Option<String> = match split_municipality(id) {
        Some((continent, city_name)) => match find_continent(&table.continents, continent.as_str()) {
            None => None,
            Some(own) => {
                let cities = &table.continents[own].cities;
                match find_city(cities, city_name.as_str()) {
                    None => None,
                    Some(city) => Some(
                        concat2("http://localhost:", cities[city].city_flask_port.as_str()),
                    ),
                }
            },
        },
        None => match find_continent(&table.continents, id) {
            None => None,
            Some(own) => Some(
                concat2("http://localhost:", table.continents[own].flask_port.as_str()),
            ),
        },
    };
    match exact {
        Some(url) => Ok(url),
        None => match find_continent(&table.continents, "Default") {
            Some(fallback) => Ok(
                concat2("http://localhost:", table.continents[fallback].flask_port.as_str()),
            ),
            None => Err(LedgerError::UnknownDestination),
        },
    }
}

/// Where a node of `tier` sends what it escalates for `municipality`: a
/// municipal node to the node of the municipality's continent, a
/// continental node to the global node, the global node nowhere.
pub open spec fn spec_escalation_target(table: RoutingTable, tier: Tier, municipality: Seq<char>)
    -> Result<Option<Seq<char>>, LedgerError> {
    match tier {
        Tier::Municipal => match spec_continent_from_municipality(
            table.continents@,
            municipality,
        ) {
            Some(url) => Ok(Some(url)),
            None => Err(LedgerError::UnknownDestination),
        },
        Tier::Continental => Ok(Some(table.global_chain_url@)),
        Tier::Global => Ok(None),
    }
}

/// Resolves the endpoint of the next tier for what a node of `tier`
/// escalates. Forwarding goes up only: municipal, continental, global.
pub fn escalation_target(table: &RoutingTable, tier: Tier, municipality: &str) -> (target: Result<
    Option<String>,
    LedgerError,
>)
    ensures
        match target {
            Ok(url) => spec_escalation_target(*table, tier, municipality@) == Ok::<
                Option<Seq<char>>,
                LedgerError,
            >(spec_text(url)),
            Err(e) => spec_escalation_target(*table, tier, municipality@) == Err::<
                Option<Seq<char>>,
                LedgerError,
            >(e),
        },
{
    match tier {
        Tier::Municipal => match determine_continent_from_municipality(table, municipality) {
            Some(url) => Ok(Some(url)),
            None => Err(LedgerError::UnknownDestination),
        },
        Tier::Continental => Ok(Some(table.global_chain_url.clone())),
        Tier::Global => Ok(None),
    }
}

} // verus!
