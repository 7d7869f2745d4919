//! The records of the registry, the requests that change them, and the
//! errors that an operation can answer with, each with its mathematical view.

use vstd::prelude::*;

verus! {

/// One service that a saloon offers. It lives inside its saloon and has no
/// identifier of its own.
#[derive(Debug, PartialEq, Eq)]
pub struct SaloonService {
    pub service_name: String,
    pub service_description: String,
    pub created_at: u64,
    pub updated_at: Option<u64>,
}

/// A saloon, as stored under its identifier.
#[derive(Debug, PartialEq, Eq)]
pub struct Saloon {
    pub owner: String,
    pub id: u64,
    pub name: String,
    pub location: String,
    pub saloon_url: String,
    pub saloonservices: Vec<SaloonService>,
    pub created_at: u64,
    pub updated_at: Option<u64>,
}

/// What a caller supplies to create or update a saloon.
#[derive(Debug, PartialEq, Eq)]
pub struct SaloonPayload {
    pub name: String,
    pub location: String,
    pub saloon_url: String,
}

/// What a caller supplies to add a service to a saloon.
#[derive(Debug, PartialEq, Eq)]
pub struct ServicePayload {
    pub service_name: String,
    pub service_description: String,
}

/// Why an operation did not succeed.
#[derive(Debug, PartialEq, Eq)]
pub enum Error {
    NotFound { msg: String },
    NotAuthorized { msg: String },
    BadRequest { msg: String },
}

/// A service, with its texts as sequences of characters.
pub struct ServiceView {
    pub service_name: Seq<char>,
    pub service_description: Seq<char>,
    pub created_at: u64,
    pub updated_at: Option<u64>,
}

/// A saloon, with its texts as sequences of characters and its services as
/// a sequence.
pub struct SaloonView {
    pub owner: Seq<char>,
    pub id: u64,
    pub name: Seq<char>,
    pub location: Seq<char>,
    pub saloon_url: Seq<char>,
    pub saloonservices: Seq<ServiceView>,
    pub created_at: u64,
    pub updated_at: Option<u64>,
}

/// A saloon request, with its texts as sequences of characters.
pub struct SaloonPayloadView {
    pub name: Seq<char>,
    pub location: Seq<char>,
    pub saloon_url: Seq<char>,
}

/// A service request, with its texts as sequences of characters.
pub struct ServicePayloadView {
    pub service_name: Seq<char>,
    pub service_description: Seq<char>,
}

/// An error, with its message as a sequence of characters.
pub enum ErrorView {
    NotFound { msg: Seq<char> },
    NotAuthorized { msg: Seq<char> },
    BadRequest { msg: Seq<char> },
}

impl View for SaloonService {
    type V = ServiceView;

    open spec fn view(&self) -> ServiceView {
        ServiceView {
            service_name: self.service_name@,
            service_description: self.service_description@,
            created_at: self.created_at,
            updated_at: self.updated_at,
        }
    }
}

/// The views of a list of services, in the same order.
pub open spec fn service_views(services: Seq<SaloonService>) -> Seq<ServiceView> {
    Seq::new(services.len(), |i: int| services[i]@)
}

impl View for Saloon {
    type V = SaloonView;

    open spec fn view(&self) -> SaloonView {
        SaloonView {
            owner: self.owner@,
            id: self.id,
            name: self.name@,
            location: self.location@,
            saloon_url: self.saloon_url@,
            saloonservices: service_views(self.saloonservices@),
            created_at: self.created_at,
            updated_at: self.updated_at,
        }
    }
}

impl View for SaloonPayload {
    type V = SaloonPayloadView;

    open spec fn view(&self) -> SaloonPayloadView {
        SaloonPayloadView {
            name: self.name@,
            location: self.location@,
            saloon_url: self.saloon_url@,
        }
    }
}

impl View for ServicePayload {
    type V = ServicePayloadView;

    open spec fn view(&self) -> ServicePayloadView {
        ServicePayloadView {
            service_name: self.service_name@,
            service_description: self.service_description@,
        }
    }
}

impl View for Error {
    type V = ErrorView;

    open spec fn view(&self) -> ErrorView {
        match self {
            Error::NotFound { msg } => ErrorView::NotFound { msg: msg@ },
            Error::NotAuthorized { msg } => ErrorView::NotAuthorized { msg: msg@ },
            Error::BadRequest { msg } => ErrorView::BadRequest { msg: msg@ },
        }
    }
}

/// The view of what an operation on one saloon answers.
pub open spec fn outcome_view(outcome: Result<Saloon, Error>) -> Result<SaloonView, ErrorView> {
    match outcome {
        Ok(saloon) => Ok(saloon@),
        Err(error) => Err(error@),
    }
}

/// The views of a list of saloons, in the same order.
pub open spec fn saloon_views(saloons: Seq<Saloon>) -> Seq<SaloonView> {
    Seq::new(saloons.len(), |i: int| saloons[i]@)
}

impl Clone for SaloonService {
    fn clone(&self) -> (copy: Self)
        ensures
            copy@ == self@,
    {
        SaloonService {
            service_name: self.service_name.clone(),
            service_description: self.service_description.clone(),
            created_at: self.created_at,
            updated_at: self.updated_at,
        }
    }
}

impl Clone for Saloon {
    fn clone(&self) -> (copy: Self)
        ensures
            copy@ == self@,
    {
        let mut services: Vec<SaloonService> = Vec::new();
        let mut i: usize = 0;
        while i < self.saloonservices.len()
            invariant
                i <= self.saloonservices.len(),
                services@.len() == i,
                forall|j: int| 0 <= j < i ==> services@[j]@ == self.saloonservices@[j]@,
            decreases self.saloonservices.len() - i,
        {
            services.push(self.saloonservices[i].clone());
            i += 1;
        }
        assert(service_views(services@) =~= service_views(self.saloonservices@));
        Saloon {
            owner: self.owner.clone(),
            id: self.id,
            name: self.name.clone(),
            location: self.location.clone(),
            saloon_url: self.saloon_url.clone(),
            saloonservices: services,
            created_at: self.created_at,
            updated_at: self.updated_at,
        }
    }
}

} // verus!
