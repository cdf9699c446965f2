//! The query string of an incoming request: its pairs, and the listing
//! parameters that they spell.

use vstd::prelude::*;
use crate::decimal::{numeral_in_range, parse_i32, parse_u8};
use crate::text::{option_view, pairs_view, result_view, same_text};

verus! {

/// The pairs that `serde_urlencoded` reads from a query string, or `None`
/// where it reports an error.
pub uninterp spec fn urlencoded_pairs(query: Seq<char>) -> Option<Seq<(Seq<char>, Seq<char>)>>;

/// Calls `serde_urlencoded::from_str` for a list of string pairs. The
/// result is a function of the query alone; an error of the crate is
/// handed on as `None`.
#[verifier::external_body]
fn decode_pairs(query: &str) -> (pairs: Option<Vec<(String, String)>>)
    ensures
        match pairs {
            Some(p) => urlencoded_pairs(query@) == Some(pairs_view(p@)),
            None => urlencoded_pairs(query@) is None,
        },
{
    serde_urlencoded::from_str::<Vec<(String, String)>>(query).ok()
}

/// The parameters that a query string may carry.
#[derive(Clone, Debug, PartialEq, Eq)]
pub struct SearchParameters {
    pub list_type: Option<u8>,
    pub prefix: Option<String>,
    pub continuation_token: Option<String>,
    pub start_after: Option<String>,
    pub max_keys: Option<i32>,
}

/// `SearchParameters` with its texts as sequences of characters.
pub struct SearchParametersView {
    pub list_type: Option<u8>,
    pub prefix: Option<Seq<char>>,
    pub continuation_token: Option<Seq<char>>,
    pub start_after: Option<Seq<char>>,
    pub max_keys: Option<i32>,
}

impl View for SearchParameters {
    type V = SearchParametersView;

    open spec fn view(&self) -> SearchParametersView {
        SearchParametersView {
            list_type: self.list_type,
            prefix: option_view(self.prefix),
            continuation_token: option_view(self.continuation_token),
            start_after: option_view(self.start_after),
            max_keys: self.max_keys,
        }
    }
}

/// Why a query string was refused.
#[derive(Clone, Copy, Debug, PartialEq, Eq, Structural)]
pub enum QueryError {
    /// The query string could not be split into pairs.
    Malformed,
    /// A name that is none of the five parameters.
    UnknownField,
    /// A parameter given twice.
    DuplicateField,
    /// `list-type` or `max-keys` with a value that is no number of its type.
    InvalidNumber,
}

impl QueryError {
    /// The text that describes the error.
    pub open spec fn message_text(self) -> Seq<char> {
        match self {
            QueryError::Malformed => "malformed query string"@,
            QueryError::UnknownField => "unknown field"@,
            QueryError::DuplicateField => "duplicate field"@,
            QueryError::InvalidNumber => "invalid number"@,
        }
    }

    /// The text that describes the error.
    pub fn message(&self) -> (m: String)
        ensures
            m@ == self.message_text(),
    {
        match self {
            QueryError::Malformed => String::from_str("malformed query string"),
            QueryError::UnknownField => String::from_str("unknown field"),
            QueryError::DuplicateField => String::from_str("duplicate field"),
            QueryError::InvalidNumber => String::from_str("invalid number"),
        }
    }
}

/// No parameter set.
pub open spec fn no_parameters() -> SearchParametersView {
    SearchParametersView {
        list_type: None,
        prefix: None,
        continuation_token: None,
        start_after: None,
        max_keys: None,
    }
}

/// The parameters `so_far` with one more pair taken in.
pub open spec fn with_pair(so_far: SearchParametersView, name: Seq<char>, value: Seq<char>) -> Result<
    SearchParametersView,
    QueryError,
> {
    if name == "list-type"@ {
        if so_far.list_type is Some {
            Err(QueryError::DuplicateField)
        } else {
            match numeral_in_range(value, false, 0, u8::MAX as int) {
                Some(n) => Ok(SearchParametersView { list_type: Some(n as u8), ..so_far }),
                None => Err(QueryError::InvalidNumber),
            }
        }
    } else if name == "prefix"@ {
        if so_far.prefix is Some {
            Err(QueryError::DuplicateField)
        } else {
            Ok(SearchParametersView { prefix: Some(value), ..so_far })
        }
    } else if name == "continuation-token"@ {
        if so_far.continuation_token is Some {
            Err(QueryError::DuplicateField)
        } else {
            Ok(SearchParametersView { continuation_token: Some(value), ..so_far })
        }
    } else if name == "start-after"@ {
        if so_far.start_after is Some {
            Err(QueryError::DuplicateField)
        } else {
            Ok(SearchParametersView { start_after: Some(value), ..so_far })
        }
    } else if name == "max-keys"@ {
        if so_far.max_keys is Some {
            Err(QueryError::DuplicateField)
        } else {
            match numeral_in_range(value, true, i32::MIN as int, i32::MAX as int) {
                Some(n) => Ok(SearchParametersView { max_keys: Some(n as i32), ..so_far }),
                None => Err(QueryError::InvalidNumber),
            }
        }
    } else {
        Err(QueryError::UnknownField)
    }
}

/// The parameters that a list of pairs spells, taking the pairs in order;
/// the first pair that cannot be taken in decides the error.
pub open spec fn parameters_of(pairs: Seq<(Seq<char>, Seq<char>)>) -> Result<
    SearchParametersView,
    QueryError,
>
    decreases pairs.len(),
{
    if pairs.len() == 0 {
        Ok(no_parameters())
    } else {
        match parameters_of(pairs.drop_last()) {
            Ok(so_far) => with_pair(so_far, pairs.last().0, pairs.last().1),
            Err(e) => Err(e),
        }
    }
}

/// The parameters that a query string spells, given the pairs that were read
/// from it.
pub open spec fn parameters_of_decoded(decoded: Option<Seq<(Seq<char>, Seq<char>)>>) -> Result<
    SearchParametersView,
    QueryError,
> {
    match decoded {
        Some(pairs) => parameters_of(pairs),
        None => Err(QueryError::Malformed),
    }
}

impl SearchParameters {
    /// Reads the parameters from the pairs of a query string.
    pub fn from_pairs(pairs: &Vec<(String, String)>) -> (r: Result<SearchParameters, QueryError>)
        ensures
            result_view(r) == parameters_of(pairs_view(pairs@)),
    {
        let mut found = SearchParameters {
            list_type: None,
            prefix: None,
            continuation_token: None,
            start_after: None,
            max_keys: None,
        };
        let ghost all = pairs_view(pairs@);
        let mut i: usize = 0;
        while i < pairs.len()
            invariant
                i <= pairs.len(),
                all == pairs_view(pairs@),
                all.len() == pairs.len(),
                parameters_of(all.take(i as int)) == Ok::<_, QueryError>(found@),
            decreases pairs.len() - i,
        {
            let name = pairs[i].0.as_str();
            let value = pairs[i].1.as_str();
            proof {
                let upto = all.take(i + 1);
                assert(upto.drop_last() == all.take(i as int));
            }
            let ghost before = found@;
            if same_text(name, "list-type") {
                if found.list_type.is_some() {
                    proof {
                        lemma_error_stays(all, i + 1, QueryError::DuplicateField);
                    }
                    return Err(QueryError::DuplicateField);
                }
                match parse_u8(value) {
                    Some(n) => {
                        found.list_type = Some(n);
                    },
                    None => {
                        proof {
                            lemma_error_stays(all, i + 1, QueryError::InvalidNumber);
                        }
                        return Err(QueryError::InvalidNumber);
                    },
                }
            } else if same_text(name, "prefix") {
                if found.prefix.is_some() {
                    proof {
                        lemma_error_stays(all, i + 1, QueryError::DuplicateField);
                    }
                    return Err(QueryError::DuplicateField);
                }
                found.prefix = Some(pairs[i].1.clone());
            } else if same_text(name, "continuation-token") {
                if found.continuation_token.is_some() {
                    proof {
                        lemma_error_stays(all, i + 1, QueryError::DuplicateField);
                    }
                    return Err(QueryError::DuplicateField);
                }
                found.continuation_token = Some(pairs[i].1.clone());
            } else if same_text(name, "start-after") {
                if found.start_after.is_some() {
                    proof {
                        lemma_error_stays(all, i + 1, QueryError::DuplicateField);
                    }
                    return Err(QueryError::DuplicateField);
                }
                found.start_after = Some(pairs[i].1.clone());
            } else if same_text(name, "max-keys") {
                if found.max_keys.is_some() {
                    proof {
                        lemma_error_stays(all, i + 1, QueryError::DuplicateField);
                    }
                    return Err(QueryError::DuplicateField);
                }
                match parse_i32(value) {
                    Some(n) => {
                        found.max_keys = Some(n);
                    },
                    None => {
                        proof {
                            lemma_error_stays(all, i + 1, QueryError::InvalidNumber);
                        }
                        return Err(QueryError::InvalidNumber);
                    },
                }
            } else {
                proof {
                    lemma_error_stays(all, i + 1, QueryError::UnknownField);
                }
                return Err(QueryError::UnknownField);
            }
            i += 1;
        }
        assert(all.take(pairs.len() as int) == all);
        Ok(found)
    }

    /// Reads the parameters from a query string.
    pub fn parse(query: &str) -> (r: Result<SearchParameters, QueryError>)
        ensures
            result_view(r) == parameters_of_decoded(urlencoded_pairs(query@)),
    {
        match decode_pairs(query) {
            Some(pairs) => SearchParameters::from_pairs(&pairs),
            None => Err(QueryError::Malformed),
        }
    }
}

/// Once a prefix of the pairs is refused, the whole list is refused with
/// the same error.
proof fn lemma_error_stays(pairs: Seq<(Seq<char>, Seq<char>)>, n: int, e: QueryError)
    requires
        0 <= n <= pairs.len(),
        parameters_of(pairs.take(n)) == Err::<SearchParametersView, _>(e),
    ensures
        parameters_of(pairs) == Err::<SearchParametersView, _>(e),
    decreases pairs.len() - n,
{
    if n < pairs.len() {
        assert(pairs.take(n + 1).drop_last() == pairs.take(n));
        lemma_error_stays(pairs, n + 1, e);
    } else {
        assert(pairs.take(n) == pairs);
    }
}

} // verus!
