//! Requests to the file-sharing service, and reading its answers.
//!
//! The client sends three kinds of request: an upload (multipart form), a
//! reminder (query parameters) and a text bin (JSON object). Each is given
//! here as its list of named fields; putting them on the wire is the
//! caller's business.

use vstd::prelude::*;
use vstd::string::StringExecFns;

verus! {

/// The HTTP methods that the client issues.
#[derive(Clone, Copy, Debug, PartialEq, Eq, Structural)]
pub enum Method {
    Get,
    Post,
    Put,
    Patch,
    Delete,
}

/// The method spelled `name` in upper case, if it is one the client knows.
pub open spec fn method_named(name: Seq<char>) -> Option<Method> {
    if name == "GET"@ {
        Some(Method::Get)
    } else if name == "POST"@ {
        Some(Method::Post)
    } else if name == "PUT"@ {
        Some(Method::Put)
    } else if name == "PATCH"@ {
        Some(Method::Patch)
    } else if name == "DELETE"@ {
        Some(Method::Delete)
    } else {
        None
    }
}

fn same_text(a: &str, b: &str) -> (r: bool)
    ensures
        r == (a@ == b@),
{
    let x = crate::text::chars_of(a);
    let y = crate::text::chars_of(b);
    if x.len() != y.len() {
        return false;
    }
    let mut i: usize = 0;
    while i < x.len()
        invariant
            i <= x.len() == y.len(),
            x@ == a@,
            y@ == b@,
            forall|j: int| 0 <= j < i ==> x@[j] == y@[j],
        decreases x.len() - i,
    {
        if x[i] != y[i] {
            assert(x@[i as int] != y@[i as int]);
            return false;
        }
        i += 1;
    }
    assert(x@ =~= y@);
    true
}

/// The method that `name` spells; `None` for any other text.
pub fn parse_method(name: &str) -> (r: Option<Method>)
    ensures
        r == method_named(name@),
{
    if same_text(name, "GET") {
        Some(Method::Get)
    } else if same_text(name, "POST") {
        Some(Method::Post)
    } else if same_text(name, "PUT") {
        Some(Method::Put)
    } else if same_text(name, "PATCH") {
        Some(Method::Patch)
    } else if same_text(name, "DELETE") {
        Some(Method::Delete)
    } else {
        None
    }
}

/// The address of a resource of the service.
pub fn resource_url(root: &str, resource_path: &str) -> (r: String)
    ensures
        r@ == root@ + "/"@ + resource_path@,
{
    let mut r = root.to_owned();
    r.append("/");
    r.append(resource_path);
    r
}

/// The decimal digits of `n`, most significant first.
pub open spec fn digits(n: nat) -> Seq<char>
    decreases n,
{
    if n < 10 {
        seq![(48 + n) as u8 as char]
    } else {
        digits(n / 10).push((48 + n % 10) as u8 as char)
    }
}

/// `n` in decimal, with a leading `-` when negative.
pub open spec fn decimal(n: int) -> Seq<char> {
    if n < 0 {
        seq!['-'] + digits((-n) as nat)
    } else {
        digits(n as nat)
    }
}

fn push_digits(out: &mut Vec<char>, n: u64)
    ensures
        final(out)@ == old(out)@ + digits(n as nat),
    decreases n,
{
    if n >= 10 {
        push_digits(out, n / 10);
    }
    out.push(((n % 10) as u8 + 48) as char);
    proof {
        if n >= 10 {
            assert(final(out)@ =~= old(out)@ + digits(n as nat));
        } else {
            assert(final(out)@ =~= old(out)@ + digits(n as nat));
        }
    }
}

/// The decimal form of `n`.
pub fn decimal_string(n: i32) -> (r: String)
    ensures
        r@ == decimal(n as int),
{
    let mut v: Vec<char> = Vec::new();
    if n < 0 {
        v.push('-');
        push_digits(&mut v, (0 - (n as i64)) as u64);
    } else {
        push_digits(&mut v, n as u64);
    }
    proof {
        assert(v@ =~= decimal(n as int));
    }
    crate::text::string_of(&v)
}

/// A form flag: `"1"` when set, empty when not.
pub open spec fn flag(b: bool) -> Seq<char> {
    if b { "1"@ } else { ""@ }
}

/// Uploads that name no expiry never expire.
pub const NO_EXPIRY: i32 = -1;

/// The text fields of an upload form, in order; the file itself is sent
/// beside them.
pub open spec fn upload_fields_spec(one_time: bool, private: bool, expiry: Option<i32>, password: Seq<char>) -> Seq<(Seq<char>, Seq<char>)> {
    seq![
        ("expiry"@, decimal(match expiry { Some(e) => e as int, None => NO_EXPIRY as int })),
        ("secret"@, flag(private)),
        ("oneTime"@, flag(one_time)),
        ("password"@, password),
        ("source"@, "at-cli"@),
    ]
}

/// A list of named fields seen as characters.
pub open spec fn fields_view(v: Seq<(String, String)>) -> Seq<(Seq<char>, Seq<char>)> {
    v.map_values(|f: (String, String)| (f.0@, f.1@))
}

fn flag_string(b: bool) -> (r: String)
    ensures
        r@ == flag(b),
{
    if b { "1".to_owned() } else { "".to_owned() }
}

/// The text fields of an upload form.
pub fn upload_fields(one_time: bool, private: bool, expiry: Option<i32>, password: &str) -> (r: Vec<(String, String)>)
    ensures
        fields_view(r@) == upload_fields_spec(one_time, private, expiry, password@),
{
    let e = match expiry {
        Some(e) => e,
        None => NO_EXPIRY,
    };
    let r = vec![
        ("expiry".to_owned(), decimal_string(e)),
        ("secret".to_owned(), flag_string(private)),
        ("oneTime".to_owned(), flag_string(one_time)),
        ("password".to_owned(), password.to_owned()),
        ("source".to_owned(), "at-cli".to_owned()),
    ];
    assert(fields_view(r@) =~= upload_fields_spec(one_time, private, expiry, password@));
    r
}

/// The message of a reminder, with the time of sending appended when given.
pub open spec fn reminder_message(message: Seq<char>, sent_at: Option<Seq<char>>) -> Seq<char> {
    match sent_at {
        Some(t) => message + "\nSent at "@ + t,
        None => message,
    }
}

/// The query parameters of a reminder request, in order.
pub fn remind_params(date: &str, message: &str, sent_at: Option<&str>) -> (r: Vec<(String, String)>)
    ensures
        fields_view(r@) == seq![
            ("dateString"@, date@),
            ("message"@, reminder_message(message@, match sent_at { Some(t) => Some(t@), None => None })),
        ],
{
    let mut m = message.to_owned();
    match sent_at {
        Some(t) => {
            m.append("\nSent at ");
            m.append(t);
        },
        None => {},
    }
    let r = vec![("dateString".to_owned(), date.to_owned()), ("message".to_owned(), m)];
    assert(fields_view(r@) =~= seq![
        ("dateString"@, date@),
        ("message"@, reminder_message(message@, match sent_at { Some(t) => Some(t@), None => None })),
    ]);
    r
}

/// The fields of the JSON object that creates a text bin, in order.
pub open spec fn bin_fields_spec(filename: Seq<char>, password: Seq<char>, text: Seq<char>, secret: bool) -> Seq<(Seq<char>, Seq<char>)> {
    let base = seq![
        ("source"@, "at-cli"@),
        ("filename"@, filename),
        ("password"@, password),
        ("text"@, text),
    ];
    if secret { base.push(("secret"@, "1"@)) } else { base }
}

/// The string fields of the JSON object that creates a text bin.
pub fn bin_fields(filename: &str, password: &str, text: &str, secret: bool) -> (r: Vec<(String, String)>)
    ensures
        fields_view(r@) == bin_fields_spec(filename@, password@, text@, secret),
{
    let mut r = vec![
        ("source".to_owned(), "at-cli".to_owned()),
        ("filename".to_owned(), filename.to_owned()),
        ("password".to_owned(), password.to_owned()),
        ("text".to_owned(), text.to_owned()),
    ];
    if secret {
        r.push(("secret".to_owned(), "1".to_owned()));
    }
    assert(fields_view(r@) =~= bin_fields_spec(filename@, password@, text@, secret));
    r
}

/// What the pattern `; url=\.(.*)"` captures in a response to a bin
/// request: the path of the new bin, relative to the service's root.
pub uninterp spec fn bin_link_of(response: Seq<char>) -> Option<Seq<char>>;

/// Relies on `regex::Regex::captures` with the pattern `; url=\.(.*)"`:
/// its first group in the leftmost match, if the pattern matches.
#[verifier::external_body]
fn bin_link(response: &str) -> (r: Option<String>)
    ensures
        r matches Some(s) ==> bin_link_of(response@) == Some(s@),
        r is None ==> bin_link_of(response@) is None,
{
    let re = regex::Regex::new(r#"; url=\.(.*)""#).unwrap();
    if let Some(caps) = re.captures(response) {
        if let Some(m) = caps.get(1) {
            return Some(m.as_str().to_owned());
        }
    }
    None
}

/// The address of a bin: the service's root followed by the bin's path.
pub fn join_bin_url(root: &str, link: &str) -> (r: String)
    ensures
        r@ == root@ + link@,
{
    let mut r = root.to_owned();
    r.append(link);
    r
}

/// The address of the bin that a response announces; `None` when the
/// response holds no bin path.
pub fn bin_url(root: &str, response: &str) -> (r: Option<String>)
    ensures
        match bin_link_of(response@) {
            Some(link) => r matches Some(u) && u@ == root@ + link,
            None => r is None,
        },
{
    match bin_link(response) {
        Some(link) => Some(join_bin_url(root, link.as_str())),
        None => None,
    }
}

} // verus!
