use vstd::prelude::*;

use crate::error::RemoteError;

verus! {

/// One directory listing of the remote filesystem.
#[derive(Clone, Debug)]
pub struct Listing {
    pub path: String,
    pub directories: Vec<String>,
    pub files: Vec<String>,
}

/// The result of a listing request.
pub type ListingResult = Result<Listing, RemoteError>;

/// The result of the default-path request.
pub type PathResult = Result<String, RemoteError>;

/// The mathematical view of the filesystem cache.
pub struct FsModel {
    pub current_path: Seq<char>,
    pub default_path: Seq<char>,
    /// The path whose listing is wanted but not yet requested.
    pub wanted: Option<Seq<char>>,
    /// The path of the listing request in flight.
    pub in_flight: Option<Seq<char>>,
    /// The path of the listing held, if any.
    pub listed: Option<Seq<char>>,
    /// Whether the backend's default path is still awaited.
    pub awaiting_default: bool,
}

/// The current and default paths with the last listing received.
pub struct FsCache {
    current_path: String,
    default_path: String,
    listing: Option<Listing>,
    wanted: Option<String>,
    list_path: String,
    list_in_flight: bool,
    awaiting_default: bool,
}

pub open spec fn opt_text(s: Option<String>) -> Option<Seq<char>> {
    match s {
        Some(t) => Some(t@),
        None => None,
    }
}

/// The cache after the default path `p` arrived: it becomes the current and
/// the default path, and its listing is wanted.
pub open spec fn default_arrived_spec(m: FsModel, p: Seq<char>) -> FsModel {
    FsModel { current_path: p, default_path: p, wanted: Some(p), ..m }
}

/// With no listing in flight, the wanted one is requested.
pub open spec fn request_spec(m: FsModel) -> FsModel {
    if m.in_flight is None && m.wanted is Some {
        FsModel { in_flight: m.wanted, wanted: None, ..m }
    } else {
        m
    }
}

/// The listing in flight ended: on success (`true`) it is held if it is for
/// the current path and dropped otherwise; on failure it is wanted again
/// unless another path is wanted already.
pub open spec fn listing_done_spec(m: FsModel, ok: bool) -> FsModel {
    match m.in_flight {
        None => m,
        Some(p) => if ok {
            FsModel {
                in_flight: None,
                listed: if p == m.current_path {
                    Some(p)
                } else {
                    m.listed
                },
                ..m
            }
        } else {
            FsModel {
                in_flight: None,
                wanted: if m.wanted is None {
                    Some(p)
                } else {
                    m.wanted
                },
                ..m
            }
        },
    }
}

/// Asking for the due listing again, with nothing answered in between,
/// changes nothing: a pass whose requests are all still in flight is
/// idempotent.
pub proof fn lemma_request_idempotent(m: FsModel)
    ensures
        request_spec(request_spec(m)) == request_spec(m),
{
}

impl View for FsCache {
    type V = FsModel;

    closed spec fn view(&self) -> FsModel {
        FsModel {
            current_path: self.current_path@,
            default_path: self.default_path@,
            wanted: opt_text(self.wanted),
            in_flight: if self.list_in_flight {
                Some(self.list_path@)
            } else {
                None
            },
            listed: match self.listing {
                Some(l) => Some(l.path@),
                None => None,
            },
            awaiting_default: self.awaiting_default,
        }
    }
}

impl FsCache {
    /// The listing held.
    pub closed spec fn held(&self) -> Option<Listing> {
        self.listing
    }

    /// A cache at `root`, whose listing is wanted, awaiting the backend's
    /// default path (the caller issues that request along with it).
    pub fn new(root: String) -> (r: FsCache)
        ensures
            r@.current_path == root@,
            r@.default_path == root@,
            r@.wanted == Some(root@),
            r@.in_flight is None,
            r@.listed is None,
            r@.awaiting_default,
    {
        FsCache {
            current_path: root.clone(),
            default_path: root.clone(),
            listing: None,
            wanted: Some(root),
            list_path: String::new(),
            list_in_flight: false,
            awaiting_default: true,
        }
    }

    /// Moves to `path` and asks for its listing; the request is issued on a
    /// pass when no other listing is in flight.
    pub fn request_listing(&mut self, path: String)
        ensures
            final(self)@ == (FsModel { current_path: path@, wanted: Some(path@), ..old(self)@ }),
    {
        self.current_path = path.clone();
        self.wanted = Some(path);
    }

    /// Takes in the answer to the default-path request: a path that
    /// arrived becomes the current and default path, and its listing is
    /// wanted; a failure leaves the root in place.
    pub fn on_default_path(&mut self, result: PathResult)
        requires
            old(self)@.awaiting_default,
        ensures
            result matches Ok(p) ==> final(self)@ == default_arrived_spec(
                FsModel { awaiting_default: false, ..old(self)@ },
                p@,
            ),
            result is Err ==> final(self)@ == (FsModel { awaiting_default: false, ..old(self)@ }),
    {
        self.awaiting_default = false;
        if let Ok(path) = result {
            self.current_path = path.clone();
            self.default_path = path.clone();
            self.wanted = Some(path);
        }
    }

    /// With no listing in flight, takes the wanted path as the listing
    /// request to issue now and returns it; otherwise returns nothing.
    pub fn listing_due(&mut self) -> (r: Option<String>)
        ensures
            final(self)@ == request_spec(old(self)@),
            match r {
                Some(p) => old(self)@.in_flight is None && old(self)@.wanted == Some(p@),
                None => old(self)@.in_flight is Some || old(self)@.wanted is None,
            },
    {
        if self.list_in_flight {
            return None;
        }
        match self.wanted.take() {
            Some(w) => {
                self.list_in_flight = true;
                self.list_path = w.clone();
                Some(w)
            },
            None => None,
        }
    }

    /// Takes in the answer to the listing request in flight. A listing for
    /// the current path replaces the held one wholesale, taking that path;
    /// one for a path left since is dropped; after a failure the path is
    /// wanted again unless another one is.
    pub fn on_listing(&mut self, result: ListingResult)
        requires
            old(self)@.in_flight is Some,
        ensures
            final(self)@ == listing_done_spec(old(self)@, result is Ok),
            old(self)@.in_flight == Some(old(self)@.current_path) ==> match (result, final(self).held()) {
                (Ok(l), Some(h)) => h.directories@ == l.directories@ && h.files@ == l.files@,
                (Ok(_), None) => false,
                (Err(_), _) => true,
            },
    {
        self.list_in_flight = false;
        match result {
            Ok(listing) => {
                if self.list_path == self.current_path {
                    self.listing = Some(Listing { path: self.list_path.clone(), ..listing });
                }
            },
            Err(_) => {
                if self.wanted.is_none() {
                    self.wanted = Some(self.list_path.clone());
                }
            },
        }
    }

    /// The current path.
    pub fn current_path(&self) -> (r: &String)
        ensures
            r@ == self@.current_path,
    {
        &self.current_path
    }

    /// The default path.
    pub fn default_path(&self) -> (r: &String)
        ensures
            r@ == self@.default_path,
    {
        &self.default_path
    }

    /// Whether no listing is wanted or in flight.
    pub fn listing_settled(&self) -> (r: bool)
        ensures
            r == (self@.in_flight is None && self@.wanted is None),
    {
        !self.list_in_flight && self.wanted.is_none()
    }

    /// The last listing received, if any.
    pub fn current_listing(&self) -> (r: Option<&Listing>)
        ensures
            match r {
                Some(l) => self@.listed == Some(l.path@) && self.held() == Some(*l),
                None => self@.listed is None && self.held() is None,
            },
    {
        match &self.listing {
            Some(l) => Some(l),
            None => None,
        }
    }
}

} // verus!
