use vstd::prelude::*;

use crate::error::Error;
use crate::repository::{parse_commit_message, parse_reply, CommitMessage};
use crate::text::{chars_of, string_of, trim, trim_chars};

use vstd::string::StringExecFns;

verus! {

/// The instruction sent to a provider: a request for a single-line commit
/// message in the shape `type(scope): subject`, followed by the diff.
pub open spec fn prompt_text(diff: Seq<char>) -> Seq<char> {
    "Analyze the following git diff and generate a **concise single-line commit message** in the format 'type(scope): subject':\n\n"@
        + diff
}

/// Builds the instruction sent to a provider for `diff`.
pub fn build_prompt(diff: &str) -> (r: String)
    ensures
        r@ == prompt_text(diff@),
{
    String::from_str(
        "Analyze the following git diff and generate a **concise single-line commit message** in the format 'type(scope): subject':\n\n",
    ).concat(diff)
}

/// The error reported when a provider's payload cannot be decoded: it names
/// the provider, the decoder's complaint and the raw payload.
pub open spec fn undecodable_text(provider: Seq<char>, detail: Seq<char>, raw: Seq<char>) -> Seq<
    char,
> {
    "Failed to parse "@ + provider + " response: "@ + detail + ". Raw response: "@ + raw
}

fn undecodable(provider: &str, detail: &str, raw: &str) -> (r: Error)
    ensures
        r matches Error::Ai(m) && m@ == undecodable_text(provider@, detail@, raw@),
{
    let m = String::from_str("Failed to parse ").concat(provider).concat(" response: ").concat(
        detail,
    ).concat(". Raw response: ").concat(raw);
    Error::Ai(m)
}

/// The cloud backend: reached over HTTPS with an API key.
pub struct GeminiProvider {
    api_key: String,
    model: String,
}

impl GeminiProvider {
    /// The API key in use.
    pub closed spec fn key(&self) -> Seq<char> {
        self.api_key@
    }

    /// The model asked for.
    pub closed spec fn model_name(&self) -> Seq<char> {
        self.model@
    }

    /// A provider for `model`, given the API key found in the environment, if
    /// any; without a key it is a configuration error.
    pub fn new(model: String, api_key: Option<String>) -> (r: Result<Self, Error>)
        ensures
            api_key is None ==> (r matches Err(Error::Config(m)) && m@
                == "GEMINI_API_KEY not set"@),
            api_key matches Some(k) ==> (r matches Ok(p) && p.key() == k@ && p.model_name()
                == model@),
    {
        match api_key {
            Some(k) => Ok(GeminiProvider { api_key: k, model }),
            None => Err(Error::Config(String::from_str("GEMINI_API_KEY not set"))),
        }
    }

    /// The address of the generation endpoint for this model and key.
    pub fn endpoint(&self) -> (r: String)
        ensures
            r@ == "https://generativelanguage.googleapis.com/v1/models/"@ + self.model_name()
                + ":generateContent?key="@ + self.key(),
    {
        String::from_str("https://generativelanguage.googleapis.com/v1/models/").concat(
            self.model.as_str(),
        ).concat(":generateContent?key=").concat(self.api_key.as_str())
    }

    /// The error for a payload that does not decode.
    pub fn undecodable_response(detail: &str, raw: &str) -> (r: Error)
        ensures
            r matches Error::Ai(m) && m@ == undecodable_text("Gemini"@, detail@, raw@),
    {
        undecodable("Gemini", detail, raw)
    }

    /// The commit message in a decoded reply, given as the text parts of each
    /// candidate: the first part of the first candidate, parsed; without one,
    /// a provider error.
    pub fn read_reply(candidates: &Vec<Vec<String>>) -> (r: Result<CommitMessage, Error>)
        ensures
            (candidates@.len() > 0 && candidates@[0]@.len() > 0) ==> (r matches Ok(c) && c@
                == parse_reply(candidates@[0]@[0]@)),
            !(candidates@.len() > 0 && candidates@[0]@.len() > 0) ==> (r matches Err(
                Error::Ai(m),
            ) && m@ == "Failed to get commit message from Gemini"@),
    {
        if candidates.len() > 0 && candidates[0].len() > 0 {
            Ok(parse_commit_message(candidates[0][0].as_str()))
        } else {
            Err(Error::Ai(String::from_str("Failed to get commit message from Gemini")))
        }
    }
}

/// The local backend: a daemon reached over HTTP, with no key.
pub struct OllamaProvider {
    ollama_url: String,
    model: String,
}

impl OllamaProvider {
    /// The daemon's base address.
    pub closed spec fn url(&self) -> Seq<char> {
        self.ollama_url@
    }

    /// The model asked for.
    pub closed spec fn model_name(&self) -> Seq<char> {
        self.model@
    }

    /// A provider for `model` served at `ollama_url`.
    pub fn new(ollama_url: String, model: String) -> (r: Result<Self, Error>)
        ensures
            r matches Ok(p) && p.url() == ollama_url@ && p.model_name() == model@,
    {
        Ok(OllamaProvider { ollama_url, model })
    }

    /// The model to put in a request.
    pub fn model(&self) -> (r: &String)
        ensures
            r@ == self.model_name(),
    {
        &self.model
    }

    /// The address of the generation endpoint.
    pub fn endpoint(&self) -> (r: String)
        ensures
            r@ == self.url() + "/api/generate"@,
    {
        self.ollama_url.clone().concat("/api/generate")
    }

    /// The error for a payload that does not decode.
    pub fn undecodable_response(detail: &str, raw: &str) -> (r: Error)
        ensures
            r matches Error::Ai(m) && m@ == undecodable_text("Ollama"@, detail@, raw@),
    {
        undecodable("Ollama", detail, raw)
    }

    /// The commit message in a decoded reply's generated text, trimmed, then parsed.
    pub fn read_reply(response: &str) -> (r: CommitMessage)
        ensures
            r@ == parse_reply(trim(response@)),
    {
        let text = string_of(trim_chars(&chars_of(response)));
        parse_commit_message(text.as_str())
    }
}

} // verus!
