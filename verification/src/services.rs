//! The system services that the daemon may start, stop and restart.

use crate::text::{
    from_chars, split_once, split_once_chars, str_eq, text_of, to_chars, trim, trim_chars,
};
use vstd::prelude::*;

verus! {

/// A service that the daemon manages: the name it goes by, its unit, and
/// what it is for.
#[derive(Clone, Debug)]
pub struct ManagedService {
    pub id: String,
    pub unit: String,
    pub description: Option<String>,
}

/// A managed service, as plain values.
pub struct ServiceView {
    pub id: Seq<char>,
    pub unit: Seq<char>,
    pub description: Option<Seq<char>>,
}

impl View for ManagedService {
    type V = ServiceView;

    open spec fn view(&self) -> ServiceView {
        ServiceView { id: self.id@, unit: self.unit@, description: text_of(self.description) }
    }
}

/// A managed service as it is given on the command line:
/// `id:unit` or `id:unit:description`.
#[derive(Clone, Debug)]
pub struct ManagedServiceArg(pub ManagedService);

/// Why a service argument is refused.
#[derive(Clone, Copy, Debug, PartialEq, Eq, Structural)]
pub enum ServiceArgError {
    /// There is no `:` and so no unit.
    MissingUnit,
    /// The id or the unit is blank.
    BadFormat,
}

impl ServiceArgError {
    /// The sentence that tells a user what is wrong.
    pub open spec fn message_text(self) -> Seq<char> {
        match self {
            ServiceArgError::MissingUnit => "missing systemd unit name"@,
            ServiceArgError::BadFormat => "format must be id:systemd-unit[:description]"@,
        }
    }

    /// The sentence that tells a user what is wrong.
    pub fn message(&self) -> (s: String)
        ensures
            s@ == self.message_text(),
    {
        match self {
            ServiceArgError::MissingUnit => "missing systemd unit name".to_owned(),
            ServiceArgError::BadFormat => "format must be id:systemd-unit[:description]".to_owned(),
        }
    }
}

/// The service that an argument names. The first `:` ends the id, the
/// second the unit, and what follows is the description; each is trimmed,
/// and a blank description counts as none.
pub open spec fn service_of_arg(s: Seq<char>) -> Result<ServiceView, ServiceArgError> {
    match split_once(s, ':') {
        None => Err(ServiceArgError::MissingUnit),
        Some((id, rest)) => {
            let unit = match split_once(rest, ':') {
                Some((u, _)) => u,
                None => rest,
            };
            let description = match split_once(rest, ':') {
                Some((_, d)) => if trim(d).len() > 0 {
                    Some(trim(d))
                } else {
                    None
                },
                None => None,
            };
            if trim(id).len() == 0 || trim(unit).len() == 0 {
                Err(ServiceArgError::BadFormat)
            } else {
                Ok(ServiceView { id: trim(id), unit: trim(unit), description })
            }
        },
    }
}

impl ManagedServiceArg {
    /// Reads a service argument.
    pub fn parse(s: &str) -> (r: Result<Self, ServiceArgError>)
        ensures
            match service_of_arg(s@) {
                Ok(v) => r is Ok && r->Ok_0.0@ == v,
                Err(e) => r is Err && r->Err_0 == e,
            },
    {
        let text = to_chars(s);
        match split_once_chars(&text, ':') {
            None => Err(ServiceArgError::MissingUnit),
            Some((id, rest)) => {
                let (unit, description) = match split_once_chars(&rest, ':') {
                    Some((u, d)) => {
                        let d = trim_chars(&d);
                        if d.len() > 0 {
                            (u, Some(from_chars(&d)))
                        } else {
                            (u, None)
                        }
                    },
                    None => (rest, None),
                };
                let id = trim_chars(&id);
                let unit = trim_chars(&unit);
                if id.len() == 0 || unit.len() == 0 {
                    Err(ServiceArgError::BadFormat)
                } else {
                    Ok(
                        ManagedServiceArg(
                            ManagedService {
                                id: from_chars(&id),
                                unit: from_chars(&unit),
                                description,
                            },
                        ),
                    )
                }
            },
        }
    }

    /// The service that the argument names.
    pub fn into_service(self) -> (s: ManagedService)
        ensures
            s == self.0,
    {
        self.0
    }
}

/// A managed service with what the service manager says of it.
#[derive(Clone, Debug)]
pub struct ManagedServiceStatus {
    pub id: String,
    pub unit: String,
    pub description: Option<String>,
    pub active: bool,
    pub enabled: bool,
}

impl ManagedServiceStatus {
    /// The report on `service`, given the two answers of the service manager.
    pub fn of(service: &ManagedService, active: bool, enabled: bool) -> (s: Self)
        ensures
            s.id@ == service.id@,
            s.unit@ == service.unit@,
            text_of(s.description) == text_of(service.description),
            s.active == active,
            s.enabled == enabled,
    {
        let description = match &service.description {
            Some(d) => Some(d.clone()),
            None => None,
        };
        ManagedServiceStatus {
            id: service.id.clone(),
            unit: service.unit.clone(),
            description,
            active,
            enabled,
        }
    }
}

/// What can be asked of a managed service.
#[derive(Debug, Clone, Copy, PartialEq, Eq, Structural)]
pub enum ServiceAction {
    Start,
    Stop,
    Restart,
}

impl ServiceAction {
    /// The word that names the action.
    pub open spec fn verb_text(self) -> Seq<char> {
        match self {
            ServiceAction::Start => "start"@,
            ServiceAction::Stop => "stop"@,
            ServiceAction::Restart => "restart"@,
        }
    }

    /// The action that a word names: `start`, `stop` or `restart`, written
    /// exactly so. Any other word names none.
    pub fn from_str(action: &str) -> (r: Option<Self>)
        ensures
            r == (if action@ == "start"@ {
                Some(ServiceAction::Start)
            } else if action@ == "stop"@ {
                Some(ServiceAction::Stop)
            } else if action@ == "restart"@ {
                Some(ServiceAction::Restart)
            } else {
                None
            }),
            r is Some ==> r->0.verb_text() == action@,
    {
        if str_eq(action, "start") {
            Some(ServiceAction::Start)
        } else if str_eq(action, "stop") {
            Some(ServiceAction::Stop)
        } else if str_eq(action, "restart") {
            Some(ServiceAction::Restart)
        } else {
            None
        }
    }

    /// The word that names the action.
    pub fn verb(&self) -> (s: &'static str)
        ensures
            s@ == self.verb_text(),
    {
        match self {
            ServiceAction::Start => "start",
            ServiceAction::Stop => "stop",
            ServiceAction::Restart => "restart",
        }
    }
}

/// The arguments that ask the service manager for `action` on `service`:
/// the verb, then the unit.
pub fn action_args(service: &ManagedService, action: ServiceAction) -> (args: Vec<String>)
    ensures
        args@.len() == 2,
        args@[0]@ == action.verb_text(),
        args@[1]@ == service.unit@,
{
    let mut args: Vec<String> = Vec::new();
    args.push(action.verb().to_owned());
    args.push(service.unit.clone());
    args
}

/// The position of the first service that goes by `id`.
pub fn find_service(services: &Vec<ManagedService>, id: &str) -> (r: Option<usize>)
    ensures
        match r {
            Some(i) => i < services@.len() && services@[i as int].id@ == id@ && forall|j: int|
                0 <= j < i ==> services@[j].id@ != id@,
            None => forall|j: int| 0 <= j < services@.len() ==> services@[j].id@ != id@,
        },
{
    let mut i: usize = 0;
    while i < services.len()
        invariant
            i <= services.len(),
            forall|j: int| 0 <= j < i ==> services@[j].id@ != id@,
        decreases services.len() - i,
    {
        if str_eq(services[i].id.as_str(), id) {
            return Some(i);
        }
        i += 1;
    }
    None
}

impl std::str::FromStr for ManagedServiceArg {
    type Err = String;

    /// Reads a service argument; the error is the sentence for the user.
    fn from_str(s: &str) -> (r: Result<Self, String>)
        ensures
            match service_of_arg(s@) {
                Ok(v) => r is Ok && r->Ok_0.0@ == v,
                Err(e) => r is Err && r->Err_0@ == e.message_text(),
            },
    {
        match ManagedServiceArg::parse(s) {
            Ok(arg) => Ok(arg),
            Err(e) => Err(e.message()),
        }
    }
}

impl From<ManagedServiceArg> for ManagedService {
    fn from(value: ManagedServiceArg) -> (s: ManagedService) {
        value.0
    }
}

impl vstd::std_specs::convert::FromSpecImpl<ManagedServiceArg> for ManagedService {
    open spec fn obeys_from_spec() -> bool {
        true
    }

    open spec fn from_spec(value: ManagedServiceArg) -> ManagedService {
        value.0
    }
}

} // verus!
