//! The adapter of the engine, which holds its chats itself: it only says
//! where the engine answers and which headers a request carries.

use crate::engine::commands::{trim_url, trimmed_url};
use std::borrow::Cow;
use vstd::prelude::*;

verus! {

/// The headers of a request, read as a map from name to value: where a name
/// stands twice, the later pair counts.
pub open spec fn header_map(pairs: Seq<(String, String)>) -> Map<Seq<char>, Seq<char>>
    decreases pairs.len(),
{
    if pairs.len() == 0 {
        Map::empty()
    } else {
        header_map(pairs.drop_last()).insert(pairs.last().0@, pairs.last().1@)
    }
}

/// Whether no name stands twice among the pairs.
pub open spec fn distinct_names(pairs: Seq<(String, String)>) -> bool {
    forall|i: int, j: int|
        0 <= i < j < pairs.len() ==> (#[trigger] pairs[i]).0@ != (#[trigger] pairs[j]).0@
}

/// The headers that every request carries, for the key `api_key`.
pub open spec fn base_headers(api_key: Seq<char>) -> Map<Seq<char>, Seq<char>> {
    Map::empty().insert("Authorization"@, "Bearer "@ + api_key).insert(
        "Content-Type"@,
        "application/json"@,
    )
}

proof fn lemma_replace_header(pairs: Seq<(String, String)>, at: int, pair: (String, String))
    requires
        0 <= at < pairs.len(),
        distinct_names(pairs),
        pairs[at].0@ == pair.0@,
    ensures
        header_map(pairs.update(at, pair)) == header_map(pairs).insert(pair.0@, pair.1@),
        distinct_names(pairs.update(at, pair)),
    decreases pairs.len(),
{
    let next = pairs.update(at, pair);
    assert forall|i: int, j: int| 0 <= i < j < next.len() implies (#[trigger] next[i]).0@ != (
    #[trigger] next[j]).0@ by {
        assert(next[i].0@ == pairs[i].0@);
        assert(next[j].0@ == pairs[j].0@);
    }
    let front = pairs.drop_last();
    if at == pairs.len() - 1 {
        assert(next.drop_last() =~= front);
        assert(header_map(next) =~= header_map(pairs).insert(pair.0@, pair.1@));
    } else {
        assert forall|i: int, j: int| 0 <= i < j < front.len() implies (#[trigger] front[i]).0@
            != (#[trigger] front[j]).0@ by {
            assert(front[i] == pairs[i]);
            assert(front[j] == pairs[j]);
        }
        lemma_replace_header(front, at, pair);
        assert(next.drop_last() =~= front.update(at, pair));
        assert(next.last() == pairs.last());
        assert(pairs[at].0@ != pairs[pairs.len() - 1].0@);
        assert(header_map(next) =~= header_map(pairs).insert(pair.0@, pair.1@));
    }
}

/// Sets the header `name` to `value`: in place where the name is there, and
/// else at the end.
fn set_header(headers: &mut Vec<(String, String)>, name: String, value: String)
    requires
        distinct_names(old(headers)@),
    ensures
        distinct_names(final(headers)@),
        header_map(final(headers)@) == header_map(old(headers)@).insert(name@, value@),
{
    let mut i: usize = 0;
    while i < headers.len()
        invariant
            headers@ == old(headers)@,
            distinct_names(headers@),
            i <= headers@.len(),
            forall|j: int| 0 <= j < i ==> (#[trigger] headers@[j]).0@ != name@,
        decreases headers@.len() - i,
    {
        if headers[i].0 == name {
            proof {
                lemma_replace_header(headers@, i as int, (name, value));
            }
            headers.set(i, (name, value));
            return ;
        }
        i += 1;
    }
    headers.push((name, value));
    proof {
        let now = headers@;
        assert(now.drop_last() =~= old(headers)@);
        assert forall|a: int, b: int| 0 <= a < b < now.len() implies (#[trigger] now[a]).0@ != (
        #[trigger] now[b]).0@ by {
            if b < now.len() - 1 {
                assert(now[a] == old(headers)@[a]);
                assert(now[b] == old(headers)@[b]);
            }
        }
    }
}

/// The adapter of the engine.
pub struct LettuceEngineAdapter;

impl LettuceEngineAdapter {
    /// The address at which the engine reports its health.
    pub fn endpoint(&self, base_url: &str) -> (url: String)
        ensures
            url@ == trimmed_url(base_url@) + "/health"@,
    {
        let mut url = trim_url(base_url);
        url.append("/health");
        url
    }

    /// The role under which the system's prompt is sent.
    pub fn system_role(&self) -> (role: Cow<'static, str>)
        ensures
            role@ == "system"@,
    {
        Cow::Borrowed("system")
    }

    /// Whether replies can be streamed: they cannot.
    pub fn supports_stream(&self) -> (b: bool)
        ensures
            !b,
    {
        false
    }

    /// The headers without which a request is refused.
    pub fn required_auth_headers(&self) -> (names: &'static [&'static str])
        ensures
            names@.len() == 1,
            names@[0]@ == "Authorization"@,
    {
        &["Authorization"]
    }

    /// The headers of a request, with a placeholder in place of the key.
    pub fn default_headers_template(&self) -> (out: Vec<(String, String)>)
        ensures
            distinct_names(out@),
            header_map(out@) == base_headers("<apiKey>"@),
    {
        let mut out: Vec<(String, String)> = Vec::new();
        set_header(&mut out, String::from_str("Authorization"), String::from_str("Bearer <apiKey>"));
        set_header(&mut out, String::from_str("Content-Type"), String::from_str("application/json"));
        proof {
            reveal_strlit("Bearer ");
            reveal_strlit("<apiKey>");
            reveal_strlit("Bearer <apiKey>");
            assert("Bearer <apiKey>"@ =~= "Bearer "@ + "<apiKey>"@);
        }
        out
    }

    /// The headers of a request made with `api_key`: the two that every
    /// request carries, then those of `extra`, each of which replaces what
    /// stood under its name.
    pub fn headers(&self, api_key: &str, extra: Option<&Vec<(String, String)>>) -> (out: Vec<
        (String, String),
    >)
        ensures
            distinct_names(out@),
            header_map(out@) == match extra {
                Some(more) => base_headers(api_key@).union_prefer_right(header_map(more@)),
                None => base_headers(api_key@),
            },
    {
        let mut out: Vec<(String, String)> = Vec::new();
        let mut token = String::from_str("Bearer ");
        token.append(api_key);
        set_header(&mut out, String::from_str("Authorization"), token);
        set_header(&mut out, String::from_str("Content-Type"), String::from_str("application/json"));
        match extra {
            Some(more) => {
                let mut i: usize = 0;
                assert(more@.take(0) =~= Seq::<(String, String)>::empty());
                assert(base_headers(api_key@).union_prefer_right(
                    Map::<Seq<char>, Seq<char>>::empty(),
                ) =~= base_headers(api_key@));
                while i < more.len()
                    invariant
                        i <= more@.len(),
                        distinct_names(out@),
                        header_map(out@) == base_headers(api_key@).union_prefer_right(
                            header_map(more@.take(i as int)),
                        ),
                    decreases more@.len() - i,
                {
                    let name = more[i].0.clone();
                    let value = more[i].1.clone();
                    proof {
                        let seen = more@.take(i as int);
                        let next = more@.take(i as int + 1);
                        assert(next.drop_last() =~= seen);
                        assert(next.last() == more@[i as int]);
                        assert(base_headers(api_key@).union_prefer_right(
                            header_map(seen).insert(name@, value@),
                        ) =~= base_headers(api_key@).union_prefer_right(header_map(seen)).insert(
                            name@,
                            value@,
                        ));
                    }
                    set_header(&mut out, name, value);
                    i += 1;
                }
                assert(more@.take(more@.len() as int) =~= more@);
            },
            None => {},
        }
        out
    }
}

} // verus!
