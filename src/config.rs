//! Where the application keeps its files.
use vstd::prelude::*;
use crate::text::{chars_of, string_of};

verus! {

broadcast use vstd::string::group_string_axioms;

/// The application's settings: a custom database path, if one is set.
pub struct AppConfig {
    pub database_path: Option<String>,
}

impl Default for AppConfig {
    fn default() -> (r: AppConfig)
        ensures
            r.database_path is None,
    {
        AppConfig { database_path: None }
    }
}

/// `b` appended to the path `a` as a new component.
pub open spec fn join_path(a: Seq<char>, b: Seq<char>) -> Seq<char> {
    if a.len() == 0 {
        b
    } else if a.last() == '/' {
        a + b
    } else {
        a.push('/') + b
    }
}

fn join(a: &String, b: &str) -> (r: String)
    ensures
        r@ == join_path(a@, b@),
{
    let mut v = chars_of(a.as_str());
    let w = chars_of(b);
    let n = v.len();
    if n > 0 && v[n - 1] != '/' {
        v.push('/');
    }
    let ghost head = v@;
    let mut i: usize = 0;
    while i < w.len()
        invariant
            i <= w@.len(),
            v@ == head + w@.take(i as int),
        decreases w.len() - i,
    {
        v.push(w[i]);
        i += 1;
        assert(v@ =~= head + w@.take(i as int));
    }
    assert(w@.take(w@.len() as int) =~= w@);
    assert(n > 0 && a@.last() != '/' ==> head =~= a@.push('/'));
    string_of(v.as_slice())
}

/// The application's data directory under a base directory (the working directory when there
/// is none).
pub open spec fn data_root(base: Option<Seq<char>>) -> Seq<char> {
    join_path(
        match base {
            Some(b) => b,
            None => "."@,
        },
        "tally"@,
    )
}

/// Relies on `dirs::data_dir`: the platform's data directory, when it has one. What it returns
/// depends on the machine, so nothing is claimed of it.
#[verifier::external_body]
fn platform_data_dir() -> (r: Option<String>) {
    dirs::data_dir().map(|p| p.to_string_lossy().into_owned())
}

impl AppConfig {
    /// The data directory under a given base directory.
    pub fn data_dir_in(base: &Option<String>) -> (r: String)
        ensures
            r@ == data_root(crate::ledger::opt_view(*base)),
    {
        let root = match base {
            Some(b) => b.clone(),
            None => string_of(chars_of(".").as_slice()),
        };
        join(&root, "tally")
    }

    /// The application's data directory.
    pub fn default_data_dir() -> (r: String)
        ensures
            exists|b: Option<Seq<char>>| r@ == data_root(b),
    {
        let base = platform_data_dir();
        Self::data_dir_in(&base)
    }

    /// The settings file: `config.json` in the data directory.
    pub fn config_path() -> (r: String)
        ensures
            exists|b: Option<Seq<char>>| r@ == join_path(data_root(b), "config.json"@),
    {
        join(&Self::default_data_dir(), "config.json")
    }

    /// The default database file: `data.db` in the data directory.
    pub fn default_db_path() -> (r: String)
        ensures
            exists|b: Option<Seq<char>>| r@ == join_path(data_root(b), "data.db"@),
    {
        join(&Self::default_data_dir(), "data.db")
    }

    /// The database file in use: the custom path when one is set and not empty, else the
    /// default.
    pub fn get_db_path(&self) -> (r: String)
        ensures
            match self.database_path {
                Some(p) => p@.len() > 0 ==> r@ == p@,
                None => true,
            },
            (self.database_path matches Some(p) && p@.len() > 0) || exists|b: Option<Seq<char>>| r@
                == join_path(data_root(b), "data.db"@),
    {
        match &self.database_path {
            Some(p) => {
                if p.as_str().is_empty() {
                    Self::default_db_path()
                } else {
                    p.clone()
                }
            },
            None => Self::default_db_path(),
        }
    }

    /// Sets the custom database path; none or an empty path returns to the default.
    pub fn set_db_path(&mut self, path: Option<String>)
        ensures
            match path {
                Some(p) => if p@.len() > 0 {
                    final(self).database_path == Some(p)
                } else {
                    final(self).database_path is None
                },
                None => final(self).database_path is None,
            },
    {
        self.database_path = match path {
            Some(p) => if p.as_str().is_empty() {
                None
            } else {
                Some(p)
            },
            None => None,
        };
    }
}

} // verus!
