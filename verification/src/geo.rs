//! Best-effort location of this machine.
//!
//! Three things are decided here and carried out by the caller: how the city
//! database is made available, which service is asked for this machine's
//! public address, and what place a database record names. Whatever fails,
//! the outcome is merely that no location is known.

use vstd::prelude::*;

verus! {

/// A step in making the city database available.
#[derive(Debug, Clone, Copy, PartialEq, Eq)]
pub enum AcquireAction {
    /// See whether the database is in the cache.
    CheckCache,
    /// Create the cache directory.
    CreateDirectory,
    /// Request the database from the mirror.
    Download,
    /// Read the body of the mirror's response.
    ReadBody,
    /// Write the database to the cache.
    Store,
    /// Open the database in the cache.
    Open,
    /// Stop: the database is available, or there will be no location.
    Finish { available: bool },
}

/// What became of a step.
#[derive(Debug, Clone, Copy, PartialEq, Eq)]
pub enum AcquireEvent {
    /// The cache was looked at.
    CacheChecked { present: bool },
    /// The mirror answered with this HTTP status.
    Responded { status: u16 },
    /// The step was carried out.
    Succeeded,
    /// The step could not be carried out.
    Failed,
}

/// Whether an HTTP status reports success: the statuses from 200 to 299 do.
pub open spec fn is_success_status(status: u16) -> bool {
    200 <= status < 300
}

/// Asks `reqwest::StatusCode` whether `status` reports success: the number is
/// turned into a status code with `from_u16`, which takes the numbers from
/// 100 to 999, and the code is asked with `is_success`, which holds from 200
/// to 299. A number that is no status code does not report success.
#[verifier::external_body]
fn status_is_success(status: u16) -> (success: bool)
    ensures
        success == is_success_status(status),
{
    match reqwest::StatusCode::from_u16(status) {
        Ok(code) => code.is_success(),
        Err(_) => false,
    }
}

/// The step that follows `pending` on `event`.
///
/// A database found in the cache is opened as it is. One that is missing is
/// downloaded into the cache first: directory, request, body, file, each
/// only after the one before it succeeded, and the body only if the mirror
/// reported success. The database is available once it has been opened;
/// anything that goes wrong ends the acquisition without it.
pub open spec fn acquire_next(pending: AcquireAction, event: AcquireEvent) -> AcquireAction {
    match pending {
        AcquireAction::CheckCache => match event {
            AcquireEvent::CacheChecked { present } => if present {
                AcquireAction::Open
            } else {
                AcquireAction::CreateDirectory
            },
            _ => AcquireAction::Finish { available: false },
        },
        AcquireAction::CreateDirectory => if event is Succeeded {
            AcquireAction::Download
        } else {
            AcquireAction::Finish { available: false }
        },
        AcquireAction::Download => match event {
            AcquireEvent::Responded { status } => if is_success_status(status) {
                AcquireAction::ReadBody
            } else {
                AcquireAction::Finish { available: false }
            },
            _ => AcquireAction::Finish { available: false },
        },
        AcquireAction::ReadBody => if event is Succeeded {
            AcquireAction::Store
        } else {
            AcquireAction::Finish { available: false }
        },
        AcquireAction::Store => if event is Succeeded {
            AcquireAction::Open
        } else {
            AcquireAction::Finish { available: false }
        },
        AcquireAction::Open => AcquireAction::Finish { available: event is Succeeded },
        AcquireAction::Finish { available } => AcquireAction::Finish { available },
    }
}

/// The number of steps that can still follow `pending`.
pub open spec fn acquire_steps_left(pending: AcquireAction) -> nat {
    match pending {
        AcquireAction::CheckCache => 6,
        AcquireAction::CreateDirectory => 5,
        AcquireAction::Download => 4,
        AcquireAction::ReadBody => 3,
        AcquireAction::Store => 2,
        AcquireAction::Open => 1,
        AcquireAction::Finish { .. } => 0,
    }
}

/// Every event brings an acquisition that is not over closer to its end,
/// which is six steps away at most; one that is over stays as it is.
pub proof fn lemma_acquisition_advances(pending: AcquireAction, event: AcquireEvent)
    ensures
        pending is Finish ==> acquire_next(pending, event) == pending,
        !(pending is Finish) ==> acquire_steps_left(acquire_next(pending, event))
            < acquire_steps_left(pending),
{
}

/// A database found in the cache is opened next, and opening ends the
/// acquisition: a cached database is never downloaded.
pub proof fn lemma_cached_database_is_opened(event: AcquireEvent)
    ensures
        acquire_next(AcquireAction::CheckCache, AcquireEvent::CacheChecked { present: true })
            == AcquireAction::Open,
        acquire_next(AcquireAction::Open, event) is Finish,
{
}

/// The database is available only once it has been opened.
pub proof fn lemma_available_means_opened(pending: AcquireAction, event: AcquireEvent)
    requires
        acquire_next(pending, event) == (AcquireAction::Finish { available: true }),
    ensures
        (pending is Open && event is Succeeded) || pending == (AcquireAction::Finish {
            available: true,
        }),
{
}

/// Where the acquisition begins.
pub fn start_acquisition() -> (first: AcquireAction)
    ensures
        first == AcquireAction::CheckCache,
{
    AcquireAction::CheckCache
}

/// Says what to do after `pending` ended with `event`.
pub fn next_acquire_action(pending: AcquireAction, event: AcquireEvent) -> (next: AcquireAction)
    ensures
        next == acquire_next(pending, event),
{
    let unavailable = AcquireAction::Finish { available: false };
    match pending {
        AcquireAction::CheckCache => match event {
            AcquireEvent::CacheChecked { present } => if present {
                AcquireAction::Open
            } else {
                AcquireAction::CreateDirectory
            },
            _ => unavailable,
        },
        AcquireAction::CreateDirectory => match event {
            AcquireEvent::Succeeded => AcquireAction::Download,
            _ => unavailable,
        },
        AcquireAction::Download => match event {
            AcquireEvent::Responded { status } => if status_is_success(status) {
                AcquireAction::ReadBody
            } else {
                unavailable
            },
            _ => unavailable,
        },
        AcquireAction::ReadBody => match event {
            AcquireEvent::Succeeded => AcquireAction::Store,
            _ => unavailable,
        },
        AcquireAction::Store => match event {
            AcquireEvent::Succeeded => AcquireAction::Open,
            _ => unavailable,
        },
        AcquireAction::Open => match event {
            AcquireEvent::Succeeded => AcquireAction::Finish { available: true },
            _ => unavailable,
        },
        AcquireAction::Finish { available } => AcquireAction::Finish { available },
    }
}

/// The number of services that can be asked for this machine's public
/// address.
pub const ADDRESS_SERVICES: usize = 3;

/// A step in finding this machine's public address.
#[derive(Debug, Clone, Copy, PartialEq, Eq)]
pub enum SearchAction {
    /// Ask the service with this index.
    Ask { service: usize },
    /// Stop: the service with this index gave the address.
    Found { service: usize },
    /// Stop: no service gave an address.
    GiveUp,
}

/// The step that follows `pending` once it is known whether the service that
/// was asked gave a usable address: the first usable answer ends the search,
/// an unusable one leads to the next service, and to giving up after the
/// last.
pub open spec fn search_next(pending: SearchAction, usable: bool) -> SearchAction {
    match pending {
        SearchAction::Ask { service } => if usable {
            SearchAction::Found { service }
        } else if service < ADDRESS_SERVICES - 1 {
            SearchAction::Ask { service: (service + 1) as usize }
        } else {
            SearchAction::GiveUp
        },
        _ => pending,
    }
}

/// The step reached from `pending` after `answers`, in order.
pub open spec fn search_replay(pending: SearchAction, answers: Seq<bool>) -> SearchAction
    decreases answers.len(),
{
    if answers.len() == 0 {
        pending
    } else {
        search_next(search_replay(pending, answers.drop_last()), answers.last())
    }
}

/// No answer before the one at `index` is usable.
pub open spec fn none_usable_before(answers: Seq<bool>, index: int) -> bool {
    forall|i: int| 0 <= i < index && i < answers.len() ==> !#[trigger] answers[i]
}

/// The services are asked in order, each once at most. The search ends with
/// the first service whose answer is usable, and gives up when none of them
/// has one.
pub proof fn lemma_search_takes_first_usable(answers: Seq<bool>)
    requires
        answers.len() <= ADDRESS_SERVICES,
    ensures
        none_usable_before(answers, answers.len() as int) ==> search_replay(
            SearchAction::Ask { service: 0 },
            answers,
        ) == if answers.len() < ADDRESS_SERVICES {
            SearchAction::Ask { service: answers.len() as usize }
        } else {
            SearchAction::GiveUp
        },
        forall|k: int|
            0 <= k < answers.len() && #[trigger] answers[k] && none_usable_before(answers, k)
                ==> search_replay(SearchAction::Ask { service: 0 }, answers) == (
            SearchAction::Found { service: k as usize }),
    decreases answers.len(),
{
    let start = SearchAction::Ask { service: 0 };
    if answers.len() > 0 {
        let earlier = answers.drop_last();
        lemma_search_takes_first_usable(earlier);
        let last = answers.len() - 1;
        assert forall|i: int| 0 <= i < earlier.len() implies earlier[i] == answers[i] by {}
        if none_usable_before(answers, last) {
            assert(none_usable_before(earlier, earlier.len() as int)) by {
                assert forall|i: int| 0 <= i < earlier.len() implies !#[trigger] earlier[i] by {
                    assert(!answers[i]);
                }
            }
        }
        assert forall|k: int|
            0 <= k < answers.len() && #[trigger] answers[k] && none_usable_before(
                answers,
                k,
            ) implies search_replay(start, answers) == (SearchAction::Found {
            service: k as usize,
        }) by {
            if k < last {
                assert(earlier[k]);
                assert(none_usable_before(earlier, k)) by {
                    assert forall|i: int| 0 <= i < k && i < earlier.len() implies !#[trigger] earlier[i] by {
                        assert(!answers[i]);
                    }
                }
            }
        }
    }
}

/// The web address of the service with the given index.
pub fn address_service(index: usize) -> (url: Option<&'static str>)
    ensures
        url is Some <==> index < ADDRESS_SERVICES,
        index == 0 ==> url == Some("https://api.ipify.org"),
        index == 1 ==> url == Some("https://icanhazip.com"),
        index == 2 ==> url == Some("https://ifconfig.me/ip"),
{
    if index == 0 {
        Some("https://api.ipify.org")
    } else if index == 1 {
        Some("https://icanhazip.com")
    } else if index == 2 {
        Some("https://ifconfig.me/ip")
    } else {
        None
    }
}

/// Where the search begins.
pub fn start_search() -> (first: SearchAction)
    ensures
        first == (SearchAction::Ask { service: 0 }),
{
    SearchAction::Ask { service: 0 }
}

/// Says what to do once it is known whether the service that was asked gave a
/// usable address.
pub fn next_search_action(pending: SearchAction, usable: bool) -> (next: SearchAction)
    ensures
        next == search_next(pending, usable),
{
    match pending {
        SearchAction::Ask { service } => if usable {
            SearchAction::Found { service }
        } else if service < ADDRESS_SERVICES - 1 {
            SearchAction::Ask { service: service + 1 }
        } else {
            SearchAction::GiveUp
        },
        SearchAction::Found { service } => SearchAction::Found { service },
        SearchAction::GiveUp => SearchAction::GiveUp,
    }
}

/// A name in one language.
#[derive(Debug, Clone, PartialEq, Eq)]
pub struct Name {
    /// The language code, such as `en`.
    pub language: String,
    /// The name in that language.
    pub text: String,
}

/// What a database record says of a country.
#[derive(Debug, Clone, PartialEq, Eq)]
pub struct Country {
    /// The two-letter code of the country.
    pub iso_code: Option<String>,
    /// The names of the country, one per language.
    pub names: Option<Vec<Name>>,
}

/// What a database record says of a city.
#[derive(Debug, Clone, PartialEq, Eq)]
pub struct City {
    /// The names of the city, one per language.
    pub names: Option<Vec<Name>>,
}

/// What a database record says of a position, in coordinates of type `C`.
#[derive(Debug, Clone, PartialEq)]
pub struct Coordinates<C> {
    pub latitude: Option<C>,
    pub longitude: Option<C>,
}

/// The parts of a city database record that a location is made of.
#[derive(Debug, Clone, PartialEq)]
pub struct CityRecord<C> {
    pub city: Option<City>,
    pub country: Option<Country>,
    pub location: Option<Coordinates<C>>,
}

/// How looking an address up in the database ended.
#[derive(Debug, Clone, PartialEq)]
pub enum LookupOutcome<C> {
    /// The database holds this record for the address.
    Found(CityRecord<C>),
    /// The database holds no record for the address.
    NoRecord,
    /// The database could not be read.
    Failed,
}

/// Where a machine is, as far as the database knows. Any part may be missing.
#[derive(Debug, Clone, PartialEq)]
pub struct Location<C> {
    pub country: Option<String>,
    pub country_code: Option<String>,
    pub city: Option<String>,
    pub latitude: Option<C>,
    pub longitude: Option<C>,
}

/// The code of the language in which places are named.
pub open spec fn english() -> Seq<char> {
    "en"@
}

/// The name in the given language among `names`: that of the first entry in
/// that language.
pub open spec fn named_in(names: Seq<Name>, language: Seq<char>) -> Option<String>
    decreases names.len(),
{
    if names.len() == 0 {
        None
    } else if names.first().language@ == language {
        Some(names.first().text)
    } else {
        named_in(names.drop_first(), language)
    }
}

/// The English name among the names of a place, if it has names and one of
/// them is English.
pub open spec fn english_of(names: Option<Vec<Name>>) -> Option<String> {
    match names {
        Some(names) => named_in(names@, english()),
        None => None,
    }
}

/// The location that a record describes: the English names of country and
/// city, the country's code, and the coordinates, each as far as the record
/// has it.
pub open spec fn location_of<C>(record: CityRecord<C>) -> Location<C> {
    Location {
        country: match record.country {
            Some(country) => english_of(country.names),
            None => None,
        },
        country_code: match record.country {
            Some(country) => country.iso_code,
            None => None,
        },
        city: match record.city {
            Some(city) => english_of(city.names),
            None => None,
        },
        latitude: match record.location {
            Some(position) => position.latitude,
            None => None,
        },
        longitude: match record.location {
            Some(position) => position.longitude,
            None => None,
        },
    }
}

/// The name in `language` among `names`.
pub fn name_in(names: &Vec<Name>, language: &String) -> (name: Option<String>)
    ensures
        name == named_in(names@, language@),
{
    let mut i: usize = 0;
    assert(names@.skip(0) =~= names@);
    while i < names.len()
        invariant
            i <= names.len(),
            named_in(names@, language@) == named_in(names@.skip(i as int), language@),
        decreases names.len() - i,
    {
        assert(names@.skip(i as int).first() == names@[i as int]);
        assert(names@.skip(i as int).drop_first() =~= names@.skip(i + 1));
        if names[i].language == *language {
            return Some(names[i].text.clone());
        }
        i += 1;
    }
    None
}

/// The English name among the names of a place.
pub fn english_name(names: &Option<Vec<Name>>) -> (name: Option<String>)
    ensures
        name == english_of(*names),
{
    match names {
        Some(names) => {
            let language = "en".to_owned();
            name_in(names, &language)
        },
        None => None,
    }
}

/// Reads the location out of the outcome of a lookup: a record gives the
/// location it describes, anything else gives none.
pub fn locate<C>(outcome: LookupOutcome<C>) -> (location: Option<Location<C>>)
    ensures
        location == match outcome {
            LookupOutcome::Found(record) => Some(location_of(record)),
            _ => None,
        },
{
    match outcome {
        LookupOutcome::Found(record) => {
            let CityRecord { city, country, location } = record;
            let (country_name, country_code) = match country {
                Some(country) => (english_name(&country.names), country.iso_code),
                None => (None, None),
            };
            let city_name = match city {
                Some(city) => english_name(&city.names),
                None => None,
            };
            let (latitude, longitude) = match location {
                Some(position) => (position.latitude, position.longitude),
                None => (None, None),
            };
            Some(
                Location {
                    country: country_name,
                    country_code,
                    city: city_name,
                    latitude,
                    longitude,
                },
            )
        },
        _ => None,
    }
}

} // verus!
