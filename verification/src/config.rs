//! The process configuration: the address to serve on, the storage root,
//! and the credential table mapping each username to its record.

use vstd::prelude::*;

verus! {

use crate::assoc::{kv_map, keys_unique, lemma_kv_map_at, lemma_kv_map_absent};
use crate::names::all_alnum;
use crate::trusted::random_alnum_string;

/// One user's record in the credential table: the secret key that
/// authenticates the user, and the name of the user's home folder
/// under the storage root.
pub struct UserData {
    pub key: String,
    pub folder: String,
}

impl UserData {
    pub fn new(key: String, folder: String) -> (u: UserData)
        ensures
            u.key == key,
            u.folder == folder,
    {
        UserData { key, folder }
    }
}

impl Clone for UserData {
    fn clone(&self) -> (r: Self)
        ensures
            r == *self,
    {
        UserData { key: self.key.clone(), folder: self.folder.clone() }
    }
}

/// The process configuration. The credential table is loaded once at
/// startup and read-only afterwards; its usernames are unique.
pub struct Config {
    pub host: String,
    pub port: i64,
    pub storage_folder: String,
    pub users: Vec<(String, UserData)>,
}

/// The credential table entries with usernames taken as character sequences.
pub open spec fn user_entries(users: Seq<(String, UserData)>) -> Seq<(Seq<char>, UserData)> {
    users.map_values(|p: (String, UserData)| (p.0@, p.1))
}

impl Config {
    /// The credential table as a map from username to record.
    pub open spec fn user_map(self) -> Map<Seq<char>, UserData> {
        kv_map(user_entries(self.users@))
    }

    /// Usernames are unique, so the table really is a map.
    pub open spec fn wf(self) -> bool {
        keys_unique(user_entries(self.users@))
    }

    /// Builds a configuration, refusing a credential table in which two
    /// entries claim the same username.
    pub fn new(
        host: String,
        port: i64,
        storage_folder: String,
        users: Vec<(String, UserData)>,
    ) -> (r: Option<Config>)
        ensures
            match r {
                Some(c) => {
                    &&& c.wf()
                    &&& c.host == host
                    &&& c.port == port
                    &&& c.storage_folder == storage_folder
                    &&& c.users == users
                },
                None => !keys_unique(user_entries(users@)),
            },
    {
        let n = users.len();
        let mut i: usize = 0;
        while i < n
            invariant
                i <= n,
                n == users@.len(),
                forall|a: int, b: int|
                    0 <= a < b < n && a < i ==> (#[trigger] user_entries(users@)[a]).0 != (
                    #[trigger] user_entries(users@)[b]).0,
            decreases n - i,
        {
            let mut j: usize = i + 1;
            while j < n
                invariant
                    i < j <= n,
                    n == users@.len(),
                    forall|a: int, b: int|
                        0 <= a < b < n && a < i ==> (#[trigger] user_entries(users@)[a]).0 != (
                        #[trigger] user_entries(users@)[b]).0,
                    forall|b: int|
                        i < b < j ==> (#[trigger] user_entries(users@)[b]).0 != user_entries(
                            users@,
                        )[i as int].0,
                decreases n - j,
            {
                let dup = users[i].0 == users[j].0;
                proof {
                    assert(user_entries(users@)[i as int].0 == users@[i as int].0@);
                    assert(user_entries(users@)[j as int].0 == users@[j as int].0@);
                }
                if dup {
                    return None;
                }
                j += 1;
            }
            i += 1;
        }
        Some(Config { host, port, storage_folder, users })
    }

    /// Looks a username up in the credential table.
    pub fn lookup_user<'a>(&'a self, username: &str) -> (r: Option<&'a UserData>)
        requires
            self.wf(),
        ensures
            match r {
                Some(ud) => self.user_map().contains_key(username@) && *ud
                    == self.user_map()[username@],
                None => !self.user_map().contains_key(username@),
            },
    {
        let uname = username.to_owned();
        let n = self.users.len();
        let mut i: usize = 0;
        while i < n
            invariant
                i <= n,
                n == self.users@.len(),
                forall|j: int| 0 <= j < i ==> (#[trigger] user_entries(self.users@)[j]).0 != uname@,
                uname@ == username@,
                self.wf(),
            decreases n - i,
        {
            let entry = &self.users[i];
            proof {
                assert(user_entries(self.users@)[i as int] == (self.users@[i as int].0@, self.users@[i as int].1));
            }
            if entry.0 == uname {
                proof {
                    lemma_kv_map_at(user_entries(self.users@), i as int);
                }
                return Some(&entry.1);
            }
            i += 1;
        }
        proof {
            lemma_kv_map_absent(user_entries(self.users@), username@);
        }
        None
    }
}

impl Default for UserData {
    /// A fresh record for the default identity: a long random key and the
    /// default home folder.
    fn default() -> (u: UserData)
        ensures
            u.folder@ == "default_user"@,
            u.key@.len() == 512,
            all_alnum(u.key@),
    {
        UserData { key: random_alnum_string(512), folder: "default_user".to_owned() }
    }
}

impl Default for Config {
    /// The configuration written on first start: one default identity with
    /// a freshly generated key.
    fn default() -> (c: Config)
        ensures
            c.wf(),
            c.host@ == "localhost"@,
            c.port == 8080,
            c.storage_folder@ == "store"@,
            c.users@.len() == 1,
            c.users@[0].0@ == "default_user"@,
            c.users@[0].1.folder@ == "default_user"@,
            c.users@[0].1.key@.len() == 512,
            all_alnum(c.users@[0].1.key@),
    {
        let mut users: Vec<(String, UserData)> = Vec::new();
        users.push(("default_user".to_owned(), UserData::default()));
        let c = Config {
            host: "localhost".to_owned(),
            port: 8080,
            storage_folder: "store".to_owned(),
            users,
        };
        proof {
            assert(c.wf());
        }
        c
    }
}

} // verus!
