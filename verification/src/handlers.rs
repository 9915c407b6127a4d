//! The request-level logic: what each kind of request decides and does to
//! the store, once the transport layer has handed over plain values. The
//! transport around it parses paths, headers and multipart bodies, replays
//! the returned filesystem actions on disk, and renders the outcomes as
//! responses.

use vstd::prelude::*;
use vstd::pervasive::unreached;
use vstd::string::StringExecFns;

verus! {

use crate::auth::{
    AuthQuery,
    auth_decision,
    header_auth_decision,
    opt_view,
    is_authed_header,
    is_authed_query,
};
use crate::config::{Config, UserData};
use crate::names::{valid_bucket_name, all_alnum};
use crate::store::{
    Store,
    UserDir,
    Bucket,
    StorageFile,
    FsAction,
    StoreError,
    delete_transition,
    write_outcome,
};
use crate::trusted::{encode_component, encoded_of, sanitized_of};

/// The outcome of a fetch request.
pub enum ServeOutcome<'a> {
    /// The stored bytes.
    Found(&'a Vec<u8>),
    /// Unknown user, or no such bucket or file.
    NotFound,
    /// The bucket name is not a valid bucket name.
    InvalidName,
}

/// The outcome of a delete request.
pub enum DeleteOutcome {
    /// The file was removed; the actions realize the removal and the
    /// cascading directory cleanup, in order.
    Deleted(Vec<FsAction>),
    /// The credentials were refused.
    Forbidden,
    /// No such file.
    NotFound,
    /// The bucket name is not a valid bucket name.
    InvalidName,
}

/// A successful upload: the stored file, the path advertised to the
/// client, and the filesystem actions to replay.
pub struct UploadReceipt {
    pub file: StorageFile,
    pub advertised: String,
    pub actions: Vec<FsAction>,
}

/// The store's visible state is untouched.
pub open spec fn store_unchanged(pre: Store, post: Store) -> bool {
    &&& post.dirs() == pre.dirs()
    &&& post.buckets() == pre.buckets()
    &&& post.files() == pre.files()
}

/// What a delete request does and returns, as a function of the one
/// authorization decision: refused credentials change nothing, an invalid
/// bucket name changes nothing, a missing file changes nothing, and an
/// existing file is removed with the cascading cleanup.
pub open spec fn delete_request_outcome(
    c: Config,
    pre: Store,
    post: Store,
    auth: Option<UserData>,
    bucket: Seq<char>,
    name: Seq<char>,
    r: DeleteOutcome,
) -> bool {
    match auth {
        None => r is Forbidden && store_unchanged(pre, post),
        Some(ud) => {
            if !valid_bucket_name(bucket) {
                r is InvalidName && store_unchanged(pre, post)
            } else {
                let k = (ud.folder@, bucket, sanitized_of(name));
                match r {
                    DeleteOutcome::Deleted(acts) => pre.files().contains_key(k)
                        && delete_transition(c.storage_folder@, pre, post, k, acts@),
                    DeleteOutcome::NotFound => !pre.files().contains_key(k) && store_unchanged(
                        pre,
                        post,
                    ),
                    _ => false,
                }
            }
        },
    }
}

/// Serves a file under `user/bucket/name`. No credentials are required to
/// read; an unknown user reads as not found.
pub fn handle_find<'a>(
    config: &Config,
    store: &'a Store,
    user: &str,
    bucket_name: String,
    file_name: String,
) -> (r: ServeOutcome<'a>)
    requires
        config.wf(),
        store.wf(),
    ensures
        !config.user_map().contains_key(user@) ==> r is NotFound,
        config.user_map().contains_key(user@) && !valid_bucket_name(bucket_name@) ==> r
            is InvalidName,
        config.user_map().contains_key(user@) && valid_bucket_name(bucket_name@) ==> {
            let k = (config.user_map()[user@].folder@, bucket_name@, sanitized_of(file_name@));
            match r {
                ServeOutcome::Found(d) => store.files().contains_key(k) && d@ == store.files()[k],
                ServeOutcome::NotFound => !store.files().contains_key(k),
                ServeOutcome::InvalidName => false,
            }
        },
{
    match config.lookup_user(user) {
        Some(userdata) => {
            let user_dir = UserDir::new(config, userdata);
            match Bucket::new(&user_dir, Some(bucket_name)) {
                Some(bucket) => {
                    let storage_file = StorageFile::new(&bucket, file_name);
                    match storage_file.serve(store) {
                        Some(d) => ServeOutcome::Found(d),
                        None => ServeOutcome::NotFound,
                    }
                },
                None => ServeOutcome::InvalidName,
            }
        },
        None => ServeOutcome::NotFound,
    }
}

/// The delete work shared by both credential roads, after authentication.
fn delete_for_user(
    config: &Config,
    store: &mut Store,
    userdata: &UserData,
    bucket_name: String,
    file_name: String,
) -> (r: DeleteOutcome)
    requires
        old(store).wf(),
    ensures
        final(store).wf(),
        final(store).root() == old(store).root(),
        delete_request_outcome(
            *config,
            *old(store),
            *final(store),
            Some(*userdata),
            bucket_name@,
            file_name@,
            r,
        ),
{
    let user_dir = UserDir::new(config, userdata);
    match Bucket::new(&user_dir, Some(bucket_name)) {
        Some(bucket) => {
            let storage_file = StorageFile::new(&bucket, file_name);
            match storage_file.delete(store) {
                Ok(acts) => DeleteOutcome::Deleted(acts),
                Err(_) => DeleteOutcome::NotFound,
            }
        },
        None => DeleteOutcome::InvalidName,
    }
}

/// Deletes `bucket/name`, authorizing by header-borne credentials.
pub fn handle_delete_header(
    config: &Config,
    store: &mut Store,
    username: Option<&str>,
    auth: Option<&str>,
    bucket_name: String,
    file_name: String,
) -> (r: DeleteOutcome)
    requires
        config.wf(),
        old(store).wf(),
    ensures
        final(store).wf(),
        final(store).root() == old(store).root(),
        delete_request_outcome(
            *config,
            *old(store),
            *final(store),
            header_auth_decision(*config, opt_view(username), opt_view(auth)),
            bucket_name@,
            file_name@,
            r,
        ),
{
    match is_authed_header(config, username, auth) {
        Some(userdata) => delete_for_user(config, store, userdata, bucket_name, file_name),
        None => DeleteOutcome::Forbidden,
    }
}

/// Deletes `bucket/name`, authorizing by query-borne credentials.
pub fn handle_delete_query(
    config: &Config,
    store: &mut Store,
    query: &AuthQuery,
    bucket_name: String,
    file_name: String,
) -> (r: DeleteOutcome)
    requires
        config.wf(),
        old(store).wf(),
    ensures
        final(store).wf(),
        final(store).root() == old(store).root(),
        delete_request_outcome(
            *config,
            *old(store),
            *final(store),
            auth_decision(*config, query.username@, query.auth@),
            bucket_name@,
            file_name@,
            r,
        ),
{
    match is_authed_query(config, query) {
        Some(userdata) => delete_for_user(config, store, userdata, bucket_name, file_name),
        None => DeleteOutcome::Forbidden,
    }
}

/// Law: the two credential roads admit exactly the same delete outcomes.
/// For one credential pair, present on both roads, a transition satisfies
/// the header-road contract exactly when it satisfies the query-road one.
pub proof fn lemma_delete_roads_agree(
    c: Config,
    pre: Store,
    post: Store,
    u: Seq<char>,
    a: Seq<char>,
    bucket: Seq<char>,
    name: Seq<char>,
    r: DeleteOutcome,
)
    ensures
        delete_request_outcome(
            c,
            pre,
            post,
            header_auth_decision(c, Some(u), Some(a)),
            bucket,
            name,
            r,
        ) == delete_request_outcome(c, pre, post, auth_decision(c, u, a), bucket, name, r),
{
}

/// Stores one uploaded file for an authenticated user: a fresh random
/// bucket, the sanitized file name, the written bytes, and the advertised
/// `folder/bucket/name` path with each segment percent-encoded.
pub fn handle_upload(
    config: &Config,
    store: &mut Store,
    user_data: &UserData,
    file_name: String,
    data: Vec<u8>,
) -> (r: Result<UploadReceipt, StoreError>)
    requires
        old(store).wf(),
    ensures
        final(store).wf(),
        final(store).root() == old(store).root(),
        match r {
            Ok(rec) => {
                &&& rec.file.bucket.user_dir.storage_folder@ == config.storage_folder@
                &&& rec.file.bucket.user_dir.folder@ == user_data.folder@
                &&& rec.file.bucket.name@.len() == 16
                &&& all_alnum(rec.file.bucket.name@)
                &&& rec.file.name@ == sanitized_of(file_name@)
                &&& !old(store).files().contains_key(rec.file.key_spec())
                &&& write_outcome(*old(store), *final(store), rec.file, data@, Ok(rec.actions))
                &&& rec.advertised@ == encoded_of(user_data.folder@) + seq!['/'] + encoded_of(
                    rec.file.bucket.name@,
                ) + seq!['/'] + encoded_of(rec.file.name@)
            },
            Err(e) => {
                &&& e == StoreError::Conflict
                &&& store_unchanged(*old(store), *final(store))
                &&& exists|b: Seq<char>|
                    b.len() == 16 && all_alnum(b) && old(store).files().contains_key(
                        (user_data.folder@, b, sanitized_of(file_name@)),
                    )
            },
        },
{
    let user_dir = UserDir::new(config, user_data);
    let bucket = match Bucket::new(&user_dir, None) {
        Some(b) => b,
        None => {
            proof {
                assert(false);
            }
            unreached()
        },
    };
    let storage_file = StorageFile::new(&bucket, file_name);
    match storage_file.write(store, data) {
        Ok(actions) => {
            let mut advertised = encode_component(user_data.folder.as_str());
            advertised.append("/");
            let eb = encode_component(storage_file.bucket.name.as_str());
            advertised.append(eb.as_str());
            advertised.append("/");
            let en = encode_component(storage_file.name.as_str());
            advertised.append(en.as_str());
            proof {
                reveal_strlit("/");
                assert(advertised@ =~= encoded_of(user_data.folder@) + seq!['/'] + encoded_of(
                    storage_file.bucket.name@,
                ) + seq!['/'] + encoded_of(storage_file.name@));
            }
            Ok(UploadReceipt { file: storage_file, advertised, actions })
        },
        Err(e) => {
            proof {
                assert(old(store).files().contains_key(storage_file.key_spec()));
                assert(storage_file.key_spec() == (
                    user_data.folder@,
                    storage_file.bucket.name@,
                    sanitized_of(file_name@),
                ));
            }
            Err(e)
        },
    }
}

/// The views of a sequence of chunks.
pub open spec fn chunk_views(chunks: Seq<Vec<u8>>) -> Seq<Seq<u8>> {
    chunks.map_values(|c: Vec<u8>| c@)
}

/// Concatenates an upload's chunks in arrival order, so the stored bytes
/// are exactly the received stream.
pub fn concat_chunks(chunks: &Vec<Vec<u8>>) -> (r: Vec<u8>)
    ensures
        r@ == chunk_views(chunks@).flatten(),
{
    let n = chunks.len();
    let mut r: Vec<u8> = Vec::new();
    let mut i: usize = 0;
    proof {
        assert(chunk_views(chunks@.take(0)) =~= Seq::<Seq<u8>>::empty());
    }
    while i < n
        invariant
            i <= n,
            n == chunks@.len(),
            r@ == chunk_views(chunks@.take(i as int)).flatten(),
        decreases n - i,
    {
        let c = &chunks[i];
        let m = c.len();
        let mut j: usize = 0;
        while j < m
            invariant
                j <= m,
                i < n,
                n == chunks@.len(),
                m == c@.len(),
                c == &chunks@[i as int],
                r@ == chunk_views(chunks@.take(i as int)).flatten() + c@.take(j as int),
            decreases m - j,
        {
            r.push(c[j]);
            proof {
                assert(c@.take(j + 1 as int) =~= c@.take(j as int).push(c@[j as int]));
            }
            j += 1;
        }
        proof {
            assert(c@.take(m as int) =~= c@);
            assert(chunk_views(chunks@.take(i + 1 as int)) =~= chunk_views(
                chunks@.take(i as int),
            ).push(c@));
            chunk_views(chunks@.take(i as int)).lemma_flatten_push(c@);
        }
        i += 1;
    }
    proof {
        assert(chunks@.take(n as int) =~= chunks@);
    }
    r
}

} // verus!
