//! The client of a schema registry: what it asks, and what it makes of the answers.

use vstd::prelude::*;

use std::collections::HashMap;

use crate::error::{registry_error, registry_failure, Failure, FailureKind, ReadError};
use crate::json::{entry, json_of_text, parse_json, text_in, unsigned_in, Json, JsonTree};
use crate::text::{decimal, decimal_text, joined, trim_end_matches, without_trailing};

verus! {

/// Where a schema registry is, and the user and password that it asks for.
#[derive(Debug)]
pub struct SchemaRegistryConfig {
    pub url: String,
    pub basic_auth: Option<(String, String)>,
}

/// A schema that a registry holds.
#[derive(Debug)]
pub struct RegisteredSchema {
    pub schema_id: u32,
    pub schema_json: String,
    pub schema_type: String,
}

/// What a `RegisteredSchema` stands for.
pub struct RegisteredTree {
    pub schema_id: u32,
    pub schema_json: Seq<char>,
    pub schema_type: Seq<char>,
}

impl View for RegisteredSchema {
    type V = RegisteredTree;

    open spec fn view(&self) -> RegisteredTree {
        RegisteredTree {
            schema_id: self.schema_id,
            schema_json: self.schema_json@,
            schema_type: self.schema_type@,
        }
    }
}

impl RegisteredSchema {
    /// A schema with the same contents.
    pub fn duplicate(&self) -> (r: RegisteredSchema)
        ensures
            r@ == self@,
    {
        RegisteredSchema {
            schema_id: self.schema_id,
            schema_json: self.schema_json.clone(),
            schema_type: self.schema_type.clone(),
        }
    }
}

/// What comes of a request to a registry.
#[derive(Debug)]
pub enum HttpReply {
    /// The request failed, for this reason.
    Failed(String),
    /// An answer with this status; its text, or the reason why it cannot be read.
    Answer { status: u16, text: Result<String, String> },
}

impl HttpReply {
    /// Whether the status is one that HTTP has.
    pub open spec fn valid(&self) -> bool {
        match self {
            HttpReply::Failed(_) => true,
            HttpReply::Answer { status, .. } => 100 <= *status && *status <= 999,
        }
    }
}

/// How `reqwest::StatusCode` writes a status: the number and what it means.
pub uninterp spec fn status_text(status: u16) -> Seq<char>;

/// Calls `to_string` of `reqwest::StatusCode`. Claimed: the text depends on the number alone.
#[verifier::external_body]
fn describe_status(status: u16) -> (r: String)
    requires
        100 <= status <= 999,
    ensures
        r@ == status_text(status),
{
    reqwest::StatusCode::from_u16(status).map(|code| code.to_string()).unwrap_or_default()
}

/// The text of an answer to a request for `url`, which has to be a success.
pub open spec fn reply_text(reply: HttpReply, url: Seq<char>) -> Result<Seq<char>, Failure> {
    match reply {
        HttpReply::Failed(reason) => Err(
            registry_failure("HTTP request to schema registry failed: "@ + reason@),
        ),
        HttpReply::Answer { status, text } => if !(200 <= status < 300) {
            Err(
                registry_failure(
                    "schema registry returned HTTP "@ + status_text(status) + ": "@ + url,
                ),
            )
        } else {
            match text {
                Ok(text) => Ok(text@),
                Err(reason) => Err(
                    registry_failure("failed to read schema registry response: "@ + reason@),
                ),
            }
        },
    }
}

/// The JSON value of an answer.
pub open spec fn reply_json(reply: HttpReply, url: Seq<char>) -> Result<JsonTree, Failure> {
    match reply_text(reply, url) {
        Err(failure) => Err(failure),
        Ok(text) => match json_of_text(text) {
            Ok(json) => Ok(json),
            Err(error) => Err(
                registry_failure("failed to parse schema registry response: "@ + error),
            ),
        },
    }
}

/// The schema with the identifier `id` that an answer describes. Its type is Avro where it has
/// none.
pub open spec fn described_schema(json: JsonTree, id: u32) -> Result<RegisteredTree, Failure> {
    match text_in(entry(json, "schema"@)) {
        None => Err(registry_failure("missing 'schema' in schema registry response"@)),
        Some(schema_json) => Ok(
            RegisteredTree {
                schema_id: id,
                schema_json,
                schema_type: match text_in(entry(json, "schemaType"@)) {
                    Some(schema_type) => schema_type,
                    None => "AVRO"@,
                },
            },
        ),
    }
}

/// The schema that the answer to a request for the latest version gives.
pub open spec fn latest_schema(reply: HttpReply, url: Seq<char>) -> Result<RegisteredTree, Failure> {
    match reply_json(reply, url) {
        Err(failure) => Err(failure),
        Ok(json) => match unsigned_in(entry(json, "id"@)) {
            None => Err(registry_failure("missing 'id' in schema registry response"@)),
            Some(id) => described_schema(json, id as u32),
        },
    }
}

/// The schema that the answer to a request for the schema with the identifier `id` gives.
pub open spec fn schema_with_id(reply: HttpReply, url: Seq<char>, id: u32) -> Result<
    RegisteredTree,
    Failure,
> {
    match reply_json(reply, url) {
        Err(failure) => Err(failure),
        Ok(json) => described_schema(json, id),
    }
}

/// Where the latest version of a subject is found.
pub open spec fn latest_url(base: Seq<char>, subject: Seq<char>) -> Seq<char> {
    without_trailing(base, '/') + "/subjects/"@ + subject + "/versions/latest"@
}

/// Where the schema with the identifier `id` is found.
pub open spec fn schema_url(base: Seq<char>, id: u32) -> Seq<char> {
    without_trailing(base, '/') + "/schemas/ids/"@ + decimal(id as int)
}

/// The client of a schema registry, with the schemas that it has seen.
#[derive(Debug)]
pub struct SchemaRegistryClient {
    config: SchemaRegistryConfig,
    cache: HashMap<u32, RegisteredSchema>,
}

impl SchemaRegistryClient {
    /// The configuration of the client.
    pub closed spec fn settings(&self) -> SchemaRegistryConfig {
        self.config
    }

    /// The schema with the identifier `id`, where the client has seen it.
    pub closed spec fn seen(&self, id: u32) -> Option<RegisteredTree> {
        if self.cache@.contains_key(id) {
            Some(self.cache@[id]@)
        } else {
            None
        }
    }

    /// Whether the client is the client `before` after it has seen `schema`.
    pub open spec fn has_also_seen(
        &self,
        before: SchemaRegistryClient,
        schema: RegisteredTree,
    ) -> bool {
        &&& self.settings() == before.settings()
        &&& forall|id: u32| #[trigger]
            self.seen(id) == if id == schema.schema_id {
                Some(schema)
            } else {
                before.seen(id)
            }
    }

    /// A client that has seen no schema.
    pub fn new(config: SchemaRegistryConfig) -> (r: SchemaRegistryClient)
        ensures
            r.settings() == config,
            forall|id: u32| #[trigger] r.seen(id) is None,
    {
        broadcast use vstd::std_specs::hash::group_hash_axioms;

        SchemaRegistryClient { config, cache: HashMap::new() }
    }

    /// The configuration of the client.
    pub fn config(&self) -> (r: &SchemaRegistryConfig)
        ensures
            *r == self.settings(),
    {
        &self.config
    }

    /// Where the latest version of a subject is found.
    pub fn latest_version_url(&self, subject: &str) -> (r: String)
        ensures
            r@ == latest_url(self.settings().url@, subject@),
    {
        let mut url: String = trim_end_matches(self.config.url.as_str(), '/');
        url.append("/subjects/");
        url.append(subject);
        url.append("/versions/latest");
        url
    }

    /// Where the schema with the identifier `id` is found.
    pub fn schema_by_id_url(&self, id: u32) -> (r: String)
        ensures
            r@ == schema_url(self.settings().url@, id),
    {
        let mut url: String = trim_end_matches(self.config.url.as_str(), '/');
        url.append("/schemas/ids/");
        url.append(decimal_text(id as i128).as_str());
        url
    }

    /// The schema with the identifier `id`, where the client has seen it.
    pub fn cached_schema(&self, id: u32) -> (r: Option<RegisteredSchema>)
        ensures
            match r {
                Some(schema) => self.seen(id) == Some(schema@),
                None => self.seen(id) is None,
            },
    {
        broadcast use vstd::std_specs::hash::group_hash_axioms;

        match self.cache.get(&id) {
            Some(schema) => Some(schema.duplicate()),
            None => None,
        }
    }

    /// Keeps a schema.
    fn remember(&mut self, schema: RegisteredSchema)
        ensures
            final(self).has_also_seen(*old(self), schema@),
    {
        broadcast use vstd::std_specs::hash::group_hash_axioms;

        let id: u32 = schema.schema_id;
        self.cache.insert(id, schema);
    }

    /// The latest version of a subject, out of the answer to a request for it.
    pub fn get_latest_version(&mut self, subject: &str, reply: HttpReply) -> (r: Result<
        RegisteredSchema,
        ReadError,
    >)
        requires
            reply.valid(),
        ensures
            ({
                let url = latest_url(old(self).settings().url@, subject@);
                match r {
                    Ok(schema) => latest_schema(reply, url) == Ok::<_, Failure>(schema@)
                        && final(self).has_also_seen(*old(self), schema@),
                    Err(error) => latest_schema(reply, url) == Err::<RegisteredTree, _>(error@)
                        && *final(self) == *old(self),
                }
            }),
    {
        let url: String = self.latest_version_url(subject);
        let json: Json = match read_reply(reply, url.as_str()) {
            Ok(json) => json,
            Err(error) => {
                return Err(error);
            },
        };
        let id: u32 = match json.unsigned_entry("id") {
            Some(id) => #[verifier::truncate]
            (id as u32),
            None => {
                return Err(
                    registry_error("missing 'id' in schema registry response".to_owned()),
                );
            },
        };
        match read_schema(&json, id) {
            Ok(schema) => {
                self.remember(schema.duplicate());
                Ok(schema)
            },
            Err(error) => Err(error),
        }
    }

    /// The schema with the identifier `id`: the one that the client has seen, else that in the
    /// answer to a request for it.
    pub fn get_schema_by_id(&mut self, id: u32, reply: HttpReply) -> (r: Result<
        RegisteredSchema,
        ReadError,
    >)
        requires
            reply.valid(),
        ensures
            ({
                let url = schema_url(old(self).settings().url@, id);
                match old(self).seen(id) {
                    Some(seen) => *final(self) == *old(self) && (r matches Ok(schema)
                        && schema@ == seen),
                    None => match r {
                        Ok(schema) => schema_with_id(reply, url, id) == Ok::<_, Failure>(schema@)
                            && final(self).has_also_seen(*old(self), schema@),
                        Err(error) => schema_with_id(reply, url, id) == Err::<RegisteredTree, _>(
                            error@,
                        ) && *final(self) == *old(self),
                    },
                }
            }),
    {
        if let Some(schema) = self.cached_schema(id) {
            return Ok(schema);
        }
        let url: String = self.schema_by_id_url(id);
        let json: Json = match read_reply(reply, url.as_str()) {
            Ok(json) => json,
            Err(error) => {
                return Err(error);
            },
        };
        match read_schema(&json, id) {
            Ok(schema) => {
                self.remember(schema.duplicate());
                Ok(schema)
            },
            Err(error) => Err(error),
        }
    }
}

/// The text of an answer to a request for `url`, which has to be a success.
pub fn check_reply(reply: HttpReply, url: &str) -> (r: Result<String, ReadError>)
    requires
        reply.valid(),
    ensures
        match r {
            Ok(text) => reply_text(reply, url@) == Ok::<_, Failure>(text@),
            Err(error) => reply_text(reply, url@) == Err::<Seq<char>, _>(error@),
        },
{
    match reply {
        HttpReply::Failed(reason) => Err(
            registry_error(joined("HTTP request to schema registry failed: ", reason.as_str())),
        ),
        HttpReply::Answer { status, text } => {
            if !(200 <= status && status < 300) {
                let description: String = describe_status(status);
                let mut message: String = joined(
                    "schema registry returned HTTP ",
                    description.as_str(),
                );
                message.append(": ");
                message.append(url);
                return Err(registry_error(message));
            }
            match text {
                Ok(text) => Ok(text),
                Err(reason) => Err(
                    registry_error(
                        joined("failed to read schema registry response: ", reason.as_str()),
                    ),
                ),
            }
        },
    }
}

/// The JSON value of an answer.
fn read_reply(reply: HttpReply, url: &str) -> (r: Result<Json, ReadError>)
    requires
        reply.valid(),
    ensures
        match r {
            Ok(json) => reply_json(reply, url@) == Ok::<_, Failure>(json@),
            Err(error) => reply_json(reply, url@) == Err::<JsonTree, _>(error@),
        },
{
    match check_reply(reply, url) {
        Ok(text) => match parse_json(text.as_str()) {
            Ok(json) => Ok(json),
            Err(error) => Err(
                registry_error(
                    joined("failed to parse schema registry response: ", error.as_str()),
                ),
            ),
        },
        Err(error) => Err(error),
    }
}

/// The schema with the identifier `id` that an answer describes.
pub fn read_schema(json: &Json, id: u32) -> (r: Result<RegisteredSchema, ReadError>)
    ensures
        match r {
            Ok(schema) => described_schema(json@, id) == Ok::<_, Failure>(schema@),
            Err(error) => described_schema(json@, id) == Err::<RegisteredTree, _>(error@),
        },
{
    let schema_json: String = match json.text_entry("schema") {
        Some(schema) => schema.clone(),
        None => {
            return Err(
                registry_error("missing 'schema' in schema registry response".to_owned()),
            );
        },
    };
    let schema_type: String = match json.text_entry("schemaType") {
        Some(schema_type) => schema_type.clone(),
        None => "AVRO".to_owned(),
    };
    Ok(RegisteredSchema { schema_id: id, schema_json, schema_type })
}

/// A schema that a client has once seen is found again by its identifier, without an answer of the
/// registry, and stays so whatever else the client sees.
pub proof fn law_seen_schemas_stay(
    before: SchemaRegistryClient,
    after: SchemaRegistryClient,
    schema: RegisteredTree,
    id: u32,
)
    requires
        after.has_also_seen(before, schema),
    ensures
        after.seen(schema.schema_id) == Some(schema),
        before.seen(id) is Some ==> after.seen(id) is Some,
        id != schema.schema_id ==> after.seen(id) == before.seen(id),
{
    assert(after.seen(id) == if id == schema.schema_id {
        Some(schema)
    } else {
        before.seen(id)
    });
}

/// The latest version of a subject and the schema with an identifier are found below the address of
/// the registry, and slashes at the end of that address do not count.
pub proof fn law_addresses_lie_below_the_registry(base: Seq<char>, subject: Seq<char>, id: u32)
    ensures
        base.len() == 0 || base.last() != '/' ==> latest_url(base, subject) == base + "/subjects/"@
            + subject + "/versions/latest"@,
        base.len() == 0 || base.last() != '/' ==> schema_url(base, id) == base + "/schemas/ids/"@
            + decimal(id as int),
        latest_url(base.push('/'), subject) == latest_url(base, subject),
        schema_url(base.push('/'), id) == schema_url(base, id),
{
    assert(base.push('/').drop_last() =~= base);
}

/// An answer counts where, and only where, its status is from 200 to 299 and its text can be read;
/// all else is a failure of the registry.
pub proof fn law_only_successes_count(reply: HttpReply, url: Seq<char>)
    ensures
        reply_text(reply, url) is Ok <==> (reply matches HttpReply::Answer { status, text } && 200
            <= status <= 299 && text is Ok),
        reply_text(reply, url) is Ok ==> reply_text(reply, url)->Ok_0 == reply->text->Ok_0@,
        reply_text(reply, url) is Err ==> reply_text(reply, url)->Err_0.kind
            == FailureKind::SchemaRegistry,
{
}

/// The latest version of a subject has the identifier, in 32 bits, and the schema that the answer
/// gives, and the type that it gives, or `AVRO` where it gives none. There is none where the answer
/// does not count or is no JSON, or where it gives no identifier or no schema.
pub proof fn law_latest_version_is_the_one_answered(reply: HttpReply, url: Seq<char>)
    ensures
        ({
            let found = latest_schema(reply, url);
            let text = reply_text(reply, url);
            let json = json_of_text(text->Ok_0);
            let id = entry(json->Ok_0, "id"@);
            let schema = entry(json->Ok_0, "schema"@);
            let schema_type = entry(json->Ok_0, "schemaType"@);
            &&& found is Ok <==> text is Ok && json is Ok && (id matches Some(JsonTree::Number(n))
                && n.unsigned is Some) && (schema matches Some(JsonTree::Text(_)))
            &&& found is Ok ==> {
                let n = id->0->Number_0.unsigned->0;
                &&& found->Ok_0.schema_id == n % 0x1_0000_0000
                &&& found->Ok_0.schema_json == schema->0->Text_0
                &&& found->Ok_0.schema_type == match schema_type {
                    Some(JsonTree::Text(name)) => name,
                    _ => "AVRO"@,
                }
            }
            &&& found is Err ==> found->Err_0.kind == FailureKind::SchemaRegistry
        }),
{
    if let Ok(text) = reply_text(reply, url) {
        if let Ok(json) = json_of_text(text) {
            if let Some(n) = unsigned_in(entry(json, "id"@)) {
                assert(n as u32 == n % 0x1_0000_0000) by (bit_vector);
            }
        }
    }
}

/// The schema with an identifier has that very identifier, and the schema and the type that the
/// answer gives, or `AVRO` where it gives no type. There is none where the answer does not count,
/// is no JSON or gives no schema.
pub proof fn law_schema_by_id_is_the_one_answered(reply: HttpReply, url: Seq<char>, id: u32)
    ensures
        ({
            let found = schema_with_id(reply, url, id);
            let text = reply_text(reply, url);
            let json = json_of_text(text->Ok_0);
            let schema = entry(json->Ok_0, "schema"@);
            let schema_type = entry(json->Ok_0, "schemaType"@);
            &&& found is Ok <==> text is Ok && json is Ok && (schema matches Some(
                JsonTree::Text(_),
            ))
            &&& found is Ok ==> {
                &&& found->Ok_0.schema_id == id
                &&& found->Ok_0.schema_json == schema->0->Text_0
                &&& found->Ok_0.schema_type == match schema_type {
                    Some(JsonTree::Text(name)) => name,
                    _ => "AVRO"@,
                }
            }
            &&& found is Err ==> found->Err_0.kind == FailureKind::SchemaRegistry
        }),
{
}

/// A registered schema stands for what it holds.
pub proof fn law_registered_schemas_stand_for_their_fields(schema: RegisteredSchema)
    ensures
        schema@.schema_id == schema.schema_id,
        schema@.schema_json == schema.schema_json@,
        schema@.schema_type == schema.schema_type@,
{
}

/// A failed request is described with its reason, and an answer that is no success with its status
/// and the address that was asked.
pub proof fn law_failed_requests_are_described(reply: HttpReply, url: Seq<char>)
    ensures
        reply is Failed ==> reply_text(reply, url)->Err_0.text
            == "HTTP request to schema registry failed: "@ + reply->Failed_0@,
        reply matches HttpReply::Answer { status, text } ==> !(200 <= status <= 299) ==> reply_text(
            reply,
            url,
        )->Err_0.text == "schema registry returned HTTP "@ + status_text(status) + ": "@ + url,
        reply matches HttpReply::Answer { status, text } ==> 200 <= status <= 299 && text is Err
            ==> reply_text(reply, url)->Err_0.text == "failed to read schema registry response: "@
            + text->Err_0@,
{
}

} // verus!
