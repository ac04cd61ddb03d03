//! The handle of the Redis store that takes the result records.

use crate::text::{make_sink_key, sink_key};
use vstd::prelude::*;

verus! {

#[verifier::external_type_specification]
#[verifier::external_body]
pub struct ExRedisClient(redis::Client);

#[verifier::external_type_specification]
#[verifier::external_body]
pub struct ExRedisError(redis::RedisError);

/// Why a store cannot be set up.
#[derive(Debug, Clone, Copy, PartialEq, Eq)]
pub enum StorageError {
    /// The endpoint is not a Redis URL.
    InvalidUrl,
}

/// Calls `redis::Client::open`, which reads the URL and connects to nothing.
/// Nothing is claimed of the outcome.
#[verifier::external_body]
fn open_client(url: &str) -> (r: Result<redis::Client, redis::RedisError>) {
    redis::Client::open(url)
}

/// `redis::Client::clone` copies the connection parameters. Nothing is
/// claimed of the copy.
pub assume_specification[ <redis::Client as Clone>::clone ](client: &redis::Client) -> redis::Client;

/// A client of the store and the prefix of the keys that it writes. Cheap to
/// clone; the clones share nothing that needs locking.
pub struct RedisStorage {
    client: redis::Client,
    out_prefix: String,
}

impl Clone for RedisStorage {
    fn clone(&self) -> (r: RedisStorage)
        ensures
            r.prefix() == self.prefix(),
    {
        RedisStorage { client: self.client.clone(), out_prefix: self.out_prefix.clone() }
    }
}

impl RedisStorage {
    /// The prefix of every key that this store writes.
    pub closed spec fn prefix(&self) -> Seq<char> {
        self.out_prefix@
    }

    /// A store behind the endpoint `url`. The URL is read here; the
    /// connection is made with the first write.
    pub fn new(url: &str, out_prefix: String) -> (r: Result<RedisStorage, StorageError>)
        ensures
            r is Ok ==> r.unwrap().prefix() == out_prefix@,
    {
        RedisStorage::with_client(open_client(url), out_prefix)
    }

    /// A store around a client that was opened, or the error where it was
    /// not.
    pub fn with_client(opened: Result<redis::Client, redis::RedisError>, out_prefix: String) -> (r:
        Result<RedisStorage, StorageError>)
        ensures
            r is Ok <==> opened is Ok,
            r is Ok ==> r.unwrap().prefix() == out_prefix@ && r.unwrap().connection() == opened->Ok_0,
            r is Err ==> r == Err::<RedisStorage, StorageError>(StorageError::InvalidUrl),
    {
        match opened {
            Ok(client) => Ok(RedisStorage { client, out_prefix }),
            Err(_) => Err(StorageError::InvalidUrl),
        }
    }

    /// The client of the store: the one that the store was made around.
    pub fn client(&self) -> (r: &redis::Client)
        ensures
            *r == self.connection(),
    {
        &self.client
    }

    /// The prefix of every key that this store writes.
    pub fn out_prefix(&self) -> (r: &str)
        ensures
            r@ == self.prefix(),
    {
        self.out_prefix.as_str()
    }

    /// The client through which this store is reached.
    pub closed spec fn connection(&self) -> redis::Client {
        self.client
    }

    /// The key of the record of job `job_id`: the prefix, a colon, the id.
    pub fn key_for(&self, job_id: &str) -> (r: String)
        ensures
            r@ == sink_key(self.prefix(), job_id@),
    {
        make_sink_key(self.out_prefix.as_str(), job_id)
    }
}

} // verus!
