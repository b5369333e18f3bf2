//! Client library for a time-series database: measurements, their lines in
//! the line protocol, and the requests that write and query them.

use crate::client::http::{HttpClient, HttpClientView, MAX_BATCH};
use crate::client::Credentials;
use crate::hurl::reqwest::ReqwestHurl;
use crate::serializer::line::LineSerializer;
use vstd::prelude::*;

pub mod client;
pub mod entries;
pub mod hurl;
pub mod measurement;
pub mod serializer;
pub mod text;

verus! {

/// The texts of the hosts.
pub open spec fn host_texts<'a>(hosts: Seq<&'a str>) -> Seq<Seq<char>> {
    hosts.map_values(|h: &'a str| h@)
}

/// Simple factory of `HttpClient` with `LineSerializer`.
///
/// Takes the credentials and the URLs of the hosts. Requests go to the first
/// host.
pub fn create_client<'a>(credentials: Credentials<'a>, hosts: Vec<&'a str>) -> (r: HttpClient<
    'a,
    LineSerializer,
    ReqwestHurl,
>)
    ensures
        r@ == (HttpClientView {
            username: credentials.username@,
            password: credentials.password@,
            database: credentials.database@,
            hosts: host_texts(hosts@),
            max_batch: MAX_BATCH,
        }),
{
    let mut client = HttpClient::new(credentials, LineSerializer::new(), ReqwestHurl::new());
    let mut i: usize = 0;
    proof {
        assert(host_texts(hosts@).take(0) =~= Seq::<Seq<char>>::empty());
    }
    while i < hosts.len()
        invariant
            i <= hosts.len(),
            client@ == (HttpClientView {
                username: credentials.username@,
                password: credentials.password@,
                database: credentials.database@,
                hosts: host_texts(hosts@).take(i as int),
                max_batch: MAX_BATCH,
            }),
        decreases hosts.len() - i,
    {
        client.add_host(hosts[i]);
        proof {
            assert(host_texts(hosts@).take(i + 1) =~= host_texts(hosts@).take(i as int).push(
                hosts@[i as int]@,
            ));
        }
        i = i + 1;
    }
    proof {
        assert(host_texts(hosts@).take(hosts.len() as int) =~= host_texts(hosts@));
    }
    client
}

} // verus!
