//! Session authentication and the executor's configuration bag.

use vstd::prelude::*;

verus! {

broadcast use vstd::std_specs::vec::group_vec_axioms, vstd::seq::group_seq_axioms;

/// The authenticated principal of a session.
#[derive(Debug, PartialEq, Eq)]
pub enum Auth {
    /// Authentication is disabled.
    No,
    /// Root access to the whole key-value store.
    Kv,
    /// Access to one namespace.
    Ns(String),
    /// Access to one database inside one namespace.
    Db(String, String),
}

/// The mathematical shape of an [`Auth`].
#[verifier::ext_equal]
pub enum SpecAuth {
    No,
    Kv,
    Ns(Seq<char>),
    Db(Seq<char>, Seq<char>),
}

impl DeepView for Auth {
    type V = SpecAuth;

    open spec fn deep_view(&self) -> SpecAuth {
        match self {
            Auth::No => SpecAuth::No,
            Auth::Kv => SpecAuth::Kv,
            Auth::Ns(n) => SpecAuth::Ns(n@),
            Auth::Db(n, d) => SpecAuth::Db(n@, d@),
        }
    }
}

impl Auth {
    /// A structural copy of the principal.
    pub fn dup(&self) -> (r: Auth)
        ensures
            r.deep_view() == self.deep_view(),
    {
        match self {
            Auth::No => Auth::No,
            Auth::Kv => Auth::Kv,
            Auth::Ns(n) => Auth::Ns(n.clone()),
            Auth::Db(n, d) => Auth::Db(n.clone(), d.clone()),
        }
    }
}

/// A connection's session, as the admission limiter sees it.
#[derive(Debug)]
pub struct Session {
    /// The authenticated principal.
    pub au: Auth,
    /// The peer address, when the transport knows one.
    pub ip: Option<String>,
}

/// The mathematical shape of a [`Session`].
#[verifier::ext_equal]
pub struct SpecSession {
    pub au: SpecAuth,
    pub ip: Option<Seq<char>>,
}

impl DeepView for Session {
    type V = SpecSession;

    open spec fn deep_view(&self) -> SpecSession {
        SpecSession { au: self.au.deep_view(), ip: self.ip.deep_view() }
    }
}

impl Default for Session {
    /// An unauthenticated session with no address.
    fn default() -> (r: Session)
        ensures
            r.deep_view().au == SpecAuth::No,
            r.deep_view().ip is None,
    {
        Session { au: Auth::No, ip: None }
    }
}

/// A privilege level a statement may require.
#[derive(Debug, Clone, Copy)]
pub enum Level {
    /// Root-level access.
    Kv,
    /// Namespace-level access.
    Ns,
    /// Database-level access.
    Db,
}

/// The mathematical shape of an [`Options`].
#[verifier::ext_equal]
pub struct SpecOptions {
    pub ns: Option<Seq<char>>,
    pub db: Option<Seq<char>>,
    pub auth: SpecAuth,
    pub fields: bool,
    pub events: bool,
    pub tables: bool,
    pub import: bool,
    pub force: bool,
}

/// The executor's configuration: selected namespace and database, the
/// authenticated principal, and the toggles an `OPTION` statement can flip.
#[derive(Debug)]
pub struct Options {
    /// The selected namespace, if any.
    pub ns: Option<String>,
    /// The selected database, if any.
    pub db: Option<String>,
    /// The authenticated principal.
    pub auth: Auth,
    /// Whether field definitions are processed.
    pub fields: bool,
    /// Whether event definitions are processed.
    pub events: bool,
    /// Whether table definitions are processed.
    pub tables: bool,
    /// Whether the query runs in import mode.
    pub import: bool,
    /// Whether definitions are forced.
    pub force: bool,
}

impl DeepView for Options {
    type V = SpecOptions;

    open spec fn deep_view(&self) -> SpecOptions {
        SpecOptions {
            ns: self.ns.deep_view(),
            db: self.db.deep_view(),
            auth: self.auth.deep_view(),
            fields: self.fields,
            events: self.events,
            tables: self.tables,
            import: self.import,
            force: self.force,
        }
    }
}

/// What [`Options::needs`] returns: the selections the level requires.
pub open spec fn spec_needs(o: SpecOptions, l: Level) -> Result<(), crate::err::SpecError> {
    match l {
        Level::Kv => Ok(()),
        Level::Ns => if o.ns is Some {
            Ok(())
        } else {
            Err(crate::err::SpecError::NsEmpty)
        },
        Level::Db => if o.ns is None {
            Err(crate::err::SpecError::NsEmpty)
        } else if o.db is None {
            Err(crate::err::SpecError::DbEmpty)
        } else {
            Ok(())
        },
    }
}

impl Options {
    /// Fresh options for a principal: nothing selected, every toggle on.
    pub fn new(auth: Auth) -> (r: Options)
        ensures
            r.deep_view() == (SpecOptions {
                ns: None,
                db: None,
                auth: auth.deep_view(),
                fields: true,
                events: true,
                tables: true,
                import: false,
                force: false,
            }),
    {
        Options {
            ns: None,
            db: None,
            auth,
            fields: true,
            events: true,
            tables: true,
            import: false,
            force: false,
        }
    }

    /// Checks that the selections this level requires have been made.
    pub fn needs(&self, l: Level) -> (r: Result<(), crate::err::Error>)
        ensures
            r is Ok <==> spec_needs(self.deep_view(), l) is Ok,
            r is Err ==> r->Err_0.deep_view() == spec_needs(self.deep_view(), l)->Err_0,
    {
        match l {
            Level::Kv => Ok(()),
            Level::Ns => match &self.ns {
                Some(_) => Ok(()),
                None => Err(crate::err::Error::NsEmpty),
            },
            Level::Db => {
                if self.ns.is_none() {
                    Err(crate::err::Error::NsEmpty)
                } else if self.db.is_none() {
                    Err(crate::err::Error::DbEmpty)
                } else {
                    Ok(())
                }
            },
        }
    }

    /// Checks that the principal may act at this level. Root, namespace and
    /// database principals, and disabled authentication, all clear every
    /// level this executor dispatches, so the check always passes.
    pub fn check(&self, l: Level) -> (r: Result<(), crate::err::Error>)
        ensures
            r is Ok,
    {
        let _ = l;
        match &self.auth {
            Auth::No => Ok(()),
            Auth::Kv => Ok(()),
            Auth::Ns(_) => Ok(()),
            Auth::Db(_, _) => Ok(()),
        }
    }
}

} // verus!
