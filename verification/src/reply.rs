//! What a client is told when its request is refused, and which model a
//! request means.
use vstd::prelude::*;
use vstd::string::*;
use crate::batcher::BatchError;
use crate::text::{decimal, push_decimal, same};

verus! {

broadcast use group_string_axioms;

/// A limit that a request exceeds.
#[derive(Debug)]
pub struct Limit {
    /// The limit's name, for programs.
    pub code: &'static str,
    pub cap: usize,
    pub received: usize,
}

/// A refusal of a request.
#[derive(Debug)]
pub struct Refusal {
    /// The HTTP status.
    pub status: u16,
    /// The seconds after which the client may try again.
    pub retry_after: Option<u32>,
    /// The kind of error, for programs.
    pub error_type: &'static str,
    /// The error in words.
    pub message: String,
    /// The limit that the request exceeds, where that is the error.
    pub limit: Option<Limit>,
}

/// What a [`Refusal`] says.
#[verifier::ext_equal]
pub struct RefusalView {
    pub status: u16,
    pub retry_after: Option<u32>,
    pub error_type: Seq<char>,
    pub message: Seq<char>,
    pub limit: Option<(Seq<char>, usize, usize)>,
}

impl View for Refusal {
    type V = RefusalView;

    open spec fn view(&self) -> RefusalView {
        RefusalView {
            status: self.status,
            retry_after: self.retry_after,
            error_type: self.error_type@,
            message: self.message@,
            limit: match self.limit {
                Some(l) => Some((l.code@, l.cap, l.received)),
                None => None,
            },
        }
    }
}

/// The request itself is wrong.
pub open spec fn wrong_request(message: Seq<char>) -> RefusalView {
    RefusalView {
        status: 400,
        retry_after: None,
        error_type: "invalid_request_error"@,
        message,
        limit: None,
    }
}

/// The server failed.
pub open spec fn failed(message: Seq<char>) -> RefusalView {
    RefusalView {
        status: 500,
        retry_after: None,
        error_type: "server_error"@,
        message,
        limit: None,
    }
}

/// There is too much work at the moment.
pub open spec fn overloaded(message: Seq<char>) -> RefusalView {
    RefusalView {
        status: 429,
        retry_after: Some(1),
        error_type: "rate_limited"@,
        message,
        limit: None,
    }
}

/// The server is about to stop.
pub open spec fn draining() -> RefusalView {
    RefusalView {
        status: 503,
        retry_after: Some(5),
        error_type: "rate_limited"@,
        message: "server shutting down"@,
        limit: None,
    }
}

/// The batcher has stopped.
pub open spec fn stopped() -> RefusalView {
    RefusalView {
        status: 503,
        retry_after: None,
        error_type: "server_error"@,
        message: "batcher shut down"@,
        limit: None,
    }
}

/// The request has more items than the server takes at once.
pub open spec fn over_cap(
    what: Seq<char>,
    code: Seq<char>,
    received: usize,
    cap: usize,
) -> RefusalView {
    RefusalView {
        status: 400,
        retry_after: None,
        error_type: "invalid_request_error"@,
        message: what + " array contains "@ + decimal(received as nat) + " items, server cap is "@
            + decimal(cap as nat) + "; split into multiple requests"@,
        limit: Some((code, cap, received)),
    }
}

/// Refuses a request that is wrong.
pub fn error_json(message: String) -> (r: Refusal)
    ensures
        r@ == wrong_request(message@),
{
    Refusal {
        status: 400,
        retry_after: None,
        error_type: "invalid_request_error",
        message,
        limit: None,
    }
}

/// Refuses a request that the server failed to serve.
pub fn server_error(message: String) -> (r: Refusal)
    ensures
        r@ == failed(message@),
{
    Refusal { status: 500, retry_after: None, error_type: "server_error", message, limit: None }
}

/// Refuses a request for which there is no room at the moment.
pub fn rate_limited_response(message: String) -> (r: Refusal)
    ensures
        r@ == overloaded(message@),
{
    Refusal { status: 429, retry_after: Some(1), error_type: "rate_limited", message, limit: None }
}

/// Refuses a request that comes while the server drains.
pub fn shutting_down() -> (r: Refusal)
    ensures
        r@ == draining(),
{
    Refusal {
        status: 503,
        retry_after: Some(5),
        error_type: "rate_limited",
        message: "server shutting down".to_owned(),
        limit: None,
    }
}

/// Refuses a request whose batcher has stopped.
pub fn batcher_stopped() -> (r: Refusal)
    ensures
        r@ == stopped(),
{
    Refusal {
        status: 503,
        retry_after: None,
        error_type: "server_error",
        message: "batcher shut down".to_owned(),
        limit: None,
    }
}

/// Refuses a request of more than `cap` items.
pub fn too_many(what: &str, code: &'static str, received: usize, cap: usize) -> (r: Refusal)
    ensures
        r@ == over_cap(what@, code@, received, cap),
{
    let mut message: String = what.to_owned();
    message.append(" array contains ");
    push_decimal(&mut message, received as u64);
    message.append(" items, server cap is ");
    push_decimal(&mut message, cap as u64);
    message.append("; split into multiple requests");
    Refusal {
        status: 400,
        retry_after: None,
        error_type: "invalid_request_error",
        message,
        limit: Some(Limit { code, cap, received }),
    }
}

/// What a client is told of a batcher's error: a full queue is told by itself,
/// an inference error in its own words.
pub open spec fn batch_refusal(e: BatchError) -> RefusalView {
    match e {
        BatchError::QueueFull(full) => overloaded(full.words()),
        BatchError::Inference(msg) => failed(msg@),
        BatchError::Shutdown => stopped(),
    }
}

/// Refuses a request that a batcher did not serve.
pub fn refuse_batch_error(e: BatchError) -> (r: Refusal)
    ensures
        r@ == batch_refusal(e),
{
    match e {
        BatchError::QueueFull(full) => rate_limited_response(full.message()),
        BatchError::Inference(msg) => server_error(msg),
        BatchError::Shutdown => batcher_stopped(),
    }
}

/// The views of some names.
pub open spec fn names_view(names: Seq<String>) -> Seq<Seq<char>> {
    names.map_values(|s: String| s@)
}

/// Whether a name is among the given ones.
pub fn is_name(names: &Vec<String>, name: &str) -> (r: bool)
    ensures
        r == names_view(names@).contains(name@),
{
    let mut i: usize = 0;
    while i < names.len()
        invariant
            i <= names.len(),
            forall|j: int| 0 <= j < i ==> names_view(names@)[j] != name@,
        decreases names.len() - i,
    {
        assert(names_view(names@)[i as int] == names@[i as int]@);
        if same(names[i].as_str(), name) {
            return true;
        }
        i = i + 1;
    }
    assert forall|j: int| 0 <= j < names_view(names@).len() implies names_view(names@)[j]
        != name@ by {
        assert(0 <= j < i);
    }
    false
}

/// The model that a request means: the one that it names, or the only one
/// that there is. `singular` and `plural` are what such models are called.
pub open spec fn chosen(
    names: Seq<Seq<char>>,
    wanted: Option<Seq<char>>,
    singular: Seq<char>,
    none: Seq<char>,
    plural: Seq<char>,
) -> Result<Seq<char>, Seq<char>> {
    match wanted {
        Some(name) => if names.contains(name) {
            Ok(name)
        } else {
            Err(singular + " '"@ + name + "' not found"@)
        },
        None => if names.len() == 0 {
            Err("no "@ + none + " models configured"@)
        } else if names.len() == 1 {
            Ok(names[0])
        } else {
            Err("`model` is required when multiple "@ + plural + " are configured"@)
        },
    }
}

/// Chooses the model that a request means. `names` holds the name of each
/// loaded model once.
pub fn choose_model(
    names: &Vec<String>,
    wanted: Option<String>,
    singular: &str,
    none: &str,
    plural: &str,
) -> (r: Result<String, String>)
    ensures
        match (r, chosen(
            names_view(names@),
            match wanted {
                Some(name) => Some(name@),
                None => None,
            },
            singular@,
            none@,
            plural@,
        )) {
            (Ok(name), Ok(n)) => name@ == n,
            (Err(e), Err(m)) => e@ == m,
            _ => false,
        },
{
    match wanted {
        Some(name) => {
            if is_name(names, name.as_str()) {
                Ok(name)
            } else {
                let mut m: String = singular.to_owned();
                m.append(" '");
                m.append(name.as_str());
                m.append("' not found");
                Err(m)
            }
        },
        None => {
            if names.len() == 0 {
                let mut m: String = "no ".to_owned();
                m.append(none);
                m.append(" models configured");
                Err(m)
            } else if names.len() == 1 {
                assert(names_view(names@)[0] == names@[0]@);
                Ok(names[0].clone())
            } else {
                let mut m: String = "`model` is required when multiple ".to_owned();
                m.append(plural);
                m.append(" are configured");
                Err(m)
            }
        },
    }
}

/// A request that names its model gets that one or none: the others do not
/// matter. A request that names none gets a model exactly when there is only
/// one.
pub proof fn law_choice_is_determined(
    names: Seq<Seq<char>>,
    wanted: Option<Seq<char>>,
    singular: Seq<char>,
    none: Seq<char>,
    plural: Seq<char>,
)
    ensures
        chosen(names, wanted, singular, none, plural) matches Ok(n) ==> names.contains(n),
        wanted matches Some(w) ==> (chosen(names, wanted, singular, none, plural) is Ok
            <==> names.contains(w)) && (chosen(names, wanted, singular, none, plural) matches Ok(n)
            ==> n == w),
        wanted is None ==> (chosen(names, wanted, singular, none, plural) is Ok <==> names.len()
            == 1),
{
    if wanted is None && names.len() == 1 {
        assert(names.contains(names[0]));
    }
}

/// What each refusal tells the client: the status, when to come again, the kind
/// of error and the message.
pub proof fn law_refusals(
    m: Seq<char>,
    what: Seq<char>,
    code: Seq<char>,
    received: usize,
    cap: usize,
)
    ensures
        wrong_request(m).status == 400 && wrong_request(m).message == m
            && wrong_request(m).retry_after is None && wrong_request(m).error_type
            == "invalid_request_error"@ && wrong_request(m).limit is None,
        failed(m).status == 500 && failed(m).message == m && failed(m).retry_after is None && failed(
            m,
        ).error_type == "server_error"@ && failed(m).limit is None,
        overloaded(m).status == 429 && overloaded(m).message == m && overloaded(m).retry_after
            == Some(1u32) && overloaded(m).error_type == "rate_limited"@ && overloaded(
            m,
        ).limit is None,
        draining().status == 503 && draining().retry_after == Some(5u32),
        stopped().status == 503 && stopped().retry_after is None,
        over_cap(what, code, received, cap).status == 400,
        over_cap(what, code, received, cap).limit == Some((code, cap, received)),
        over_cap(what, code, received, cap).message == what + " array contains "@ + decimal(
            received as nat,
        ) + " items, server cap is "@ + decimal(cap as nat) + "; split into multiple requests"@,
{
}

/// A refusal says what it holds.
pub proof fn law_refusal_view(r: Refusal)
    ensures
        r@.status == r.status,
        r@.retry_after == r.retry_after,
        r@.error_type == r.error_type@,
        r@.message == r.message@,
        r.limit is None <==> r@.limit is None,
        r.limit matches Some(l) ==> r@.limit == Some((l.code@, l.cap, l.received)),
{
}

/// The names of some texts are theirs, one by one.
pub proof fn law_names(names: Seq<String>, i: int)
    ensures
        names_view(names).len() == names.len(),
        0 <= i < names.len() ==> names_view(names)[i] == names[i]@,
{
}

/// What a failed batch tells the client.
pub proof fn law_batch_refusals(e: BatchError)
    ensures
        e matches BatchError::QueueFull(full) ==> batch_refusal(e).status == 429 && batch_refusal(
            e,
        ).message == full.words(),
        e matches BatchError::Inference(m) ==> batch_refusal(e).status == 500 && batch_refusal(
            e,
        ).message == m@,
        e is Shutdown ==> batch_refusal(e).status == 503,
{
}

/// A choice that fails says why: the name that is not there, that there is no
/// model, or that there are several.
pub proof fn law_failed_choices(
    names: Seq<Seq<char>>,
    name: Seq<char>,
    singular: Seq<char>,
    none: Seq<char>,
    plural: Seq<char>,
)
    ensures
        !names.contains(name) ==> chosen(names, Some(name), singular, none, plural) == Err::<
            Seq<char>,
            Seq<char>,
        >(singular + " '"@ + name + "' not found"@),
        names.len() == 0 ==> chosen(names, None, singular, none, plural) == Err::<
            Seq<char>,
            Seq<char>,
        >("no "@ + none + " models configured"@),
        names.len() == 1 ==> chosen(names, None, singular, none, plural) == Ok::<
            Seq<char>,
            Seq<char>,
        >(names[0]),
        names.len() > 1 ==> chosen(names, None, singular, none, plural) == Err::<
            Seq<char>,
            Seq<char>,
        >("`model` is required when multiple "@ + plural + " are configured"@),
{
}

/// What a server says that shuts down or has no batcher any more, and of what
/// type it is.
pub proof fn law_server_is_unavailable(
    what: Seq<char>,
    code: Seq<char>,
    received: usize,
    cap: usize,
)
    ensures
        draining().message == "server shutting down"@,
        draining().error_type == "rate_limited"@,
        draining().limit is None,
        stopped().message == "batcher shut down"@,
        stopped().error_type == "server_error"@,
        stopped().limit is None,
        over_cap(what, code, received, cap).error_type == "invalid_request_error"@,
        over_cap(what, code, received, cap).retry_after is None,
{
}

} // verus!
