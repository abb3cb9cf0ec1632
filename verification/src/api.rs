//! Data model of the observed timeline: items, authors, credentials and the
//! request descriptor for the list-statuses endpoint.

use vstd::prelude::*;
use vstd::string::StringSliceAdditionalSpecFns;

verus! {

/// The author of a timeline item.
#[derive(Clone, Copy, Debug, PartialEq, Eq, Structural)]
pub struct User {
    pub id: u64,
}

/// One timeline item: a Snowflake identifier plus an author reference.
#[derive(Clone, Copy, Debug, PartialEq, Eq, Structural)]
pub struct Tweet {
    pub id: u64,
    pub user: User,
}

/// The credential loaded at startup, selecting the signing strategy: a
/// full OAuth1 user-context signing key, or an app-only bearer value held
/// as a ready `Authorization` header line.
pub enum Token {
    UserContext {
        consumer_key: String,
        consumer_secret: String,
        access_token: String,
        access_token_secret: String,
    },
    AppOnly(String),
}

/// The bytes an HTTP header value may hold: visible characters and spaces
/// (every byte from 32 up except 127, DEL) plus horizontal tab.
pub open spec fn valid_header_bytes(b: Seq<u8>) -> bool {
    forall|i: int| 0 <= i < b.len() ==> ((32 <= #[trigger] b[i] && b[i] != 127) || b[i] == 9)
}

impl Token {
    /// Builds the app-only credential, prefixing the bearer value with the
    /// `Bearer` scheme; a value that cannot stand in a header is rejected.
    pub fn from_bearer(bearer: &str) -> (r: Option<Token>)
        ensures
            r is Some <==> valid_header_bytes(bearer.spec_bytes()),
            r matches Some(t) ==> (t matches Token::AppOnly(s) && s@ == "Bearer "@ + bearer@),
    {
        let bytes = bearer.as_bytes();
        let mut k: usize = 0;
        while k < bytes.len()
            invariant
                k <= bytes@.len(),
                bytes@ == bearer.spec_bytes(),
                forall|i: int| 0 <= i < k ==> ((32 <= #[trigger] bytes@[i] && bytes@[i] != 127)
                    || bytes@[i] == 9),
            decreases bytes@.len() - k,
        {
            let b = bytes[k];
            if !((32 <= b && b != 127) || b == 9) {
                return None;
            }
            k += 1;
        }
        let header = "Bearer ".to_owned();
        let header = header.concat(bearer);
        Some(Token::AppOnly(header))
    }
}

impl Tweet {
    /// Compares two items by identifier in reverse order, so that sorting by
    /// this comparison yields a reverse-chronological (descending) timeline.
    pub fn cmp_rev_id(&self, other: &Self) -> (r: core::cmp::Ordering)
        ensures
            r == core::cmp::Ordering::Less <==> other.id < self.id,
            r == core::cmp::Ordering::Equal <==> other.id == self.id,
            r == core::cmp::Ordering::Greater <==> other.id > self.id,
    {
        if other.id < self.id {
            core::cmp::Ordering::Less
        } else if other.id == self.id {
            core::cmp::Ordering::Equal
        } else {
            core::cmp::Ordering::Greater
        }
    }
}

/// The API host every request is sent to.
pub const HOST: &'static str = "api.twitter.com";

/// Relies on the standard `String::push`: appending one character.
pub assume_specification[ String::push ](s: &mut String, c: char)
    ensures
        final (s)@ == old(s)@.push(c),
;

/// The decimal spelling of a non-negative integer, most significant digit
/// first.
pub open spec fn spec_dec_str(n: int) -> Seq<char>
    decreases n,
{
    if n < 10 {
        seq![((0x30 + n) as u8) as char]
    } else {
        spec_dec_str(n / 10).push(((0x30 + n % 10) as u8) as char)
    }
}

/// Appends the decimal spelling of `n` to `out`.
fn push_dec(n: u64, out: &mut String)
    ensures
        final (out)@ == old(out)@ + spec_dec_str(n as int),
    decreases n,
{
    if n >= 10 {
        push_dec(n / 10, out);
        out.push((0x30 + (n % 10) as u8) as char);
        proof {
            assert(out@ =~= old(out)@ + spec_dec_str(n as int));
        }
    } else {
        out.push((0x30 + n as u8) as char);
        proof {
            assert(out@ =~= old(out)@ + spec_dec_str(n as int));
        }
    }
}

/// The request line of the list-statuses endpoint: its path and query
/// parameters in fixed order, with `since_id` present only when a cursor
/// is submitted.
pub open spec fn spec_uri(
    list_id: u64,
    since_id: Option<u64>,
    count: u64,
    include_entities: bool,
) -> Seq<char> {
    "/1.1/lists/statuses.json?count="@ + spec_dec_str(count as int) + "&include_entities="@ + (
    if include_entities {
        "true"@
    } else {
        "false"@
    }) + "&list_id="@ + spec_dec_str(list_id as int) + (match since_id {
        Some(s) => "&since_id="@ + spec_dec_str(s as int),
        None => Seq::empty(),
    })
}

/// The request descriptor for the list-statuses endpoint: the target list,
/// the optional cursor, the page size, and the entities flag, together
/// with the formatted request line they determine.
pub struct ListsStatuses {
    list_id: u64,
    since_id: Option<u64>,
    count: u64,
    include_entities: bool,
    uri: String,
}

impl ListsStatuses {
    /// The descriptor invariant: the stored request line spells out the
    /// parameter fields.
    pub closed spec fn wf(self) -> bool {
        self.uri@ == spec_uri(self.list_id, self.since_id, self.count, self.include_entities)
    }

    pub closed spec fn spec_list_id(self) -> u64 {
        self.list_id
    }

    pub closed spec fn spec_since_id(self) -> Option<u64> {
        self.since_id
    }

    pub closed spec fn spec_count(self) -> u64 {
        self.count
    }

    pub closed spec fn spec_include_entities(self) -> bool {
        self.include_entities
    }

    /// A fresh descriptor for one list: no cursor yet, the page size at
    /// the endpoint's maximum, entities excluded.
    pub fn new(list_id: u64) -> (r: Self)
        ensures
            r.wf(),
            r.spec_list_id() == list_id,
            r.spec_since_id() is None,
            r.spec_count() == 200,
            !r.spec_include_entities(),
    {
        let mut r = ListsStatuses {
            list_id,
            since_id: None,
            count: 200,
            include_entities: false,
            uri: String::new(),
        };
        r.format_uri();
        r
    }

    /// Sets or clears the cursor and reformats the request line.
    pub fn since_id(&mut self, since_id: Option<u64>)
        ensures
            final (self).wf(),
            final (self).spec_since_id() == since_id,
            final (self).spec_list_id() == old(self).spec_list_id(),
            final (self).spec_count() == old(self).spec_count(),
            final (self).spec_include_entities() == old(self).spec_include_entities(),
    {
        self.since_id = since_id;
        self.format_uri();
    }

    /// Sets the page size and reformats the request line.
    pub fn count(&mut self, count: u64)
        ensures
            final (self).wf(),
            final (self).spec_count() == count,
            final (self).spec_list_id() == old(self).spec_list_id(),
            final (self).spec_since_id() == old(self).spec_since_id(),
            final (self).spec_include_entities() == old(self).spec_include_entities(),
    {
        self.count = count;
        self.format_uri();
    }

    pub fn get_list_id(&self) -> (r: u64)
        ensures
            r == self.spec_list_id(),
    {
        self.list_id
    }

    pub fn get_since_id(&self) -> (r: Option<u64>)
        ensures
            r == self.spec_since_id(),
    {
        self.since_id
    }

    pub fn get_count(&self) -> (r: u64)
        ensures
            r == self.spec_count(),
    {
        self.count
    }

    pub fn get_include_entities(&self) -> (r: bool)
        ensures
            r == self.spec_include_entities(),
    {
        self.include_entities
    }

    /// The formatted request line (path and query) for the current
    /// parameters.
    pub fn uri_str(&self) -> (r: &str)
        requires
            self.wf(),
        ensures
            r@ == spec_uri(
                self.spec_list_id(),
                self.spec_since_id(),
                self.spec_count(),
                self.spec_include_entities(),
            ),
    {
        self.uri.as_str()
    }

    fn format_uri(&mut self)
        ensures
            final (self).wf(),
            final (self).list_id == old(self).list_id,
            final (self).since_id == old(self).since_id,
            final (self).count == old(self).count,
            final (self).include_entities == old(self).include_entities,
    {
        let mut uri = String::new();
        uri.append("/1.1/lists/statuses.json?count=");
        push_dec(self.count, &mut uri);
        uri.append("&include_entities=");
        if self.include_entities {
            uri.append("true");
        } else {
            uri.append("false");
        }
        uri.append("&list_id=");
        push_dec(self.list_id, &mut uri);
        match self.since_id {
            Some(sid) => {
                uri.append("&since_id=");
                push_dec(sid, &mut uri);
            },
            None => {},
        }
        proof {
            assert(uri@ =~= spec_uri(
                self.list_id,
                self.since_id,
                self.count,
                self.include_entities,
            ));
        }
        self.uri = uri;
    }
}

} // verus!
