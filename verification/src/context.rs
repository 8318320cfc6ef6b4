//! The execution context that carries a physical plan from one invocation
//! to the next, and the envelope in which it travels.

use crate::batch::{batch_schema, clone_groups, groups_view, schema_of, Batch};
use crate::encoding::Encoding;
use crate::envelope::{
    ascii_text, envelope_text, is_envelope, lemma_envelope_unique, read_envelope, write_envelope,
};
use crate::error::FlockError;
use crate::plan::{path_view, PhysicalPlan};
use vstd::prelude::*;
use vstd::std_specs::cmp::PartialEqSpecImpl;
use vstd::utf8::encode_utf8;

verus! {

/// The envelope of a context: its serialized bytes under an encoding.
#[derive(Debug)]
pub struct CloudEnvironment {
    /// The serialized context, encoded.
    pub context: Vec<u8>,
    /// The encoding of `context`.
    pub encoding: Encoding,
}

/// What is invoked after the current function.
#[derive(Debug)]
pub enum CloudFunction {
    /// One function, by its name.
    Solo(String),
    /// One function out of a group: the prefix that the names of the group
    /// share, and the size of the group.
    Chorus((String, u8)),
    /// Nothing: this is the last stage.
    Terminal,
}

/// Where the data of a context comes from.
#[derive(Debug)]
pub enum DataSource {
    /// The payload of the invocation carries the data.
    Payload,
    /// An outside source of events, by its name.
    Event(String),
    /// The source is not known.
    UnknownEvent,
}

impl CloudFunction {
    /// Two routing decisions are the same.
    pub open spec fn same(&self, other: &CloudFunction) -> bool {
        match (*self, *other) {
            (CloudFunction::Solo(a), CloudFunction::Solo(b)) => a@ == b@,
            (CloudFunction::Chorus(a), CloudFunction::Chorus(b)) => a.0@ == b.0@ && a.1 == b.1,
            (CloudFunction::Terminal, CloudFunction::Terminal) => true,
            _ => false,
        }
    }
}

impl PartialEq for CloudFunction {
    fn eq(&self, other: &CloudFunction) -> (r: bool) {
        match self {
            CloudFunction::Solo(a) => match other {
                CloudFunction::Solo(b) => *a == *b,
                _ => false,
            },
            CloudFunction::Chorus(a) => match other {
                CloudFunction::Chorus(b) => a.0 == b.0 && a.1 == b.1,
                _ => false,
            },
            CloudFunction::Terminal => match other {
                CloudFunction::Terminal => true,
                _ => false,
            },
        }
    }
}

impl PartialEqSpecImpl for CloudFunction {
    open spec fn obeys_eq_spec() -> bool {
        true
    }

    open spec fn eq_spec(&self, other: &CloudFunction) -> bool {
        self.same(other)
    }
}

impl Clone for CloudFunction {
    fn clone(&self) -> (r: CloudFunction)
        ensures
            r == *self,
    {
        match self {
            CloudFunction::Solo(name) => CloudFunction::Solo(name.clone()),
            CloudFunction::Chorus(group) => CloudFunction::Chorus((group.0.clone(), group.1)),
            CloudFunction::Terminal => CloudFunction::Terminal,
        }
    }
}

impl Default for CloudFunction {
    fn default() -> (r: CloudFunction)
        ensures
            r == CloudFunction::Terminal,
    {
        CloudFunction::Terminal
    }
}

impl DataSource {
    /// Two descriptors name the same source.
    pub open spec fn same(&self, other: &DataSource) -> bool {
        match (*self, *other) {
            (DataSource::Payload, DataSource::Payload) => true,
            (DataSource::Event(a), DataSource::Event(b)) => a@ == b@,
            (DataSource::UnknownEvent, DataSource::UnknownEvent) => true,
            _ => false,
        }
    }
}

impl PartialEq for DataSource {
    fn eq(&self, other: &DataSource) -> (r: bool) {
        match self {
            DataSource::Payload => match other {
                DataSource::Payload => true,
                _ => false,
            },
            DataSource::Event(a) => match other {
                DataSource::Event(b) => *a == *b,
                _ => false,
            },
            DataSource::UnknownEvent => match other {
                DataSource::UnknownEvent => true,
                _ => false,
            },
        }
    }
}

impl PartialEqSpecImpl for DataSource {
    open spec fn obeys_eq_spec() -> bool {
        true
    }

    open spec fn eq_spec(&self, other: &DataSource) -> bool {
        self.same(other)
    }
}

impl Clone for DataSource {
    fn clone(&self) -> (r: DataSource)
        ensures
            r == *self,
    {
        match self {
            DataSource::Payload => DataSource::Payload,
            DataSource::Event(name) => DataSource::Event(name.clone()),
            DataSource::UnknownEvent => DataSource::UnknownEvent,
        }
    }
}

impl Default for DataSource {
    fn default() -> (r: DataSource)
        ensures
            r == DataSource::UnknownEvent,
    {
        DataSource::UnknownEvent
    }
}

/// The text of the envelope that carries `serialized` under `encoding`.
pub open spec fn marshal_model(serialized: Seq<u8>, encoding: Encoding) -> Seq<u8> {
    envelope_text(encoding.encoded(serialized), encoding)
}

/// What an envelope's text yields: the bytes it carries, decoded; or
/// `MalformedEnvelope` where the text is no envelope or the codec refuses
/// its bytes, `UnsupportedEncoding` where the runtime has no codec for its
/// tag.
pub open spec fn unmarshal_model(text: Seq<u8>) -> Result<Seq<u8>, FlockError> {
    if is_envelope(text) {
        let t = choose|t: (Seq<u8>, Encoding)| text == envelope_text(t.0, t.1);
        t.1.decoded(t.0)
    } else {
        Err(FlockError::MalformedEnvelope)
    }
}

/// Opening the envelope of some bytes yields what the decoder makes of the
/// encoded bytes: the envelope adds and loses nothing. Without encoding,
/// the bytes come back as they were.
pub proof fn lemma_round_trip(serialized: Seq<u8>, encoding: Encoding)
    ensures
        unmarshal_model(marshal_model(serialized, encoding)) == encoding.decoded(
            encoding.encoded(serialized),
        ),
        encoding == Encoding::Identity ==> unmarshal_model(marshal_model(serialized, encoding))
            == Ok::<Seq<u8>, FlockError>(serialized),
{
    let text = marshal_model(serialized, encoding);
    let made = (encoding.encoded(serialized), encoding);
    assert(text == envelope_text(made.0, made.1));
    let t = choose|t: (Seq<u8>, Encoding)| text == envelope_text(t.0, t.1);
    lemma_envelope_unique(t.0, t.1, made.0, made.1);
}

impl CloudEnvironment {
    /// Writes the envelope as text.
    pub fn to_text(&self) -> (text: String)
        ensures
            encode_utf8(text@) == envelope_text(self.context@, self.encoding),
    {
        ascii_text(write_envelope(&self.context, self.encoding))
    }

    /// Reads an envelope from its text. Fails with `MalformedEnvelope`
    /// where the text is not exactly the text of an envelope.
    pub fn from_text(s: &str) -> (r: Result<CloudEnvironment, FlockError>)
        ensures
            r is Ok <==> is_envelope(encode_utf8(s@)),
            r matches Ok(env) ==> encode_utf8(s@) == envelope_text(env.context@, env.encoding),
            r matches Err(e) ==> e == FlockError::MalformedEnvelope,
    {
        match read_envelope(s.as_bytes()) {
            Some((context, encoding)) => Ok(CloudEnvironment { context, encoding }),
            None => Err(FlockError::MalformedEnvelope),
        }
    }
}

/// What one invocation needs to run its part of a query: the plan, its own
/// name, what to invoke next, and where its data comes from.
#[derive(Debug)]
pub struct ExecutionContext {
    /// The physical sub-plan.
    pub plan: PhysicalPlan,
    /// The name of the function in this context: query code, index of the
    /// sub-plan and timestamp.
    pub name: String,
    /// What to invoke next.
    pub next: CloudFunction,
    /// Where the data originates.
    pub datasource: DataSource,
}

impl PartialEq for ExecutionContext {
    fn eq(&self, other: &ExecutionContext) -> (r: bool) {
        self.name == other.name && self.next == other.next && self.datasource == other.datasource
            && self.plan.same_shape(&other.plan)
    }
}

impl PartialEqSpecImpl for ExecutionContext {
    open spec fn obeys_eq_spec() -> bool {
        true
    }

    open spec fn eq_spec(&self, other: &ExecutionContext) -> bool {
        &&& self.name@ == other.name@
        &&& self.next.same(&other.next)
        &&& self.datasource.same(&other.datasource)
        &&& self.plan@.same_shape(other.plan@)
    }
}

impl ExecutionContext {
    /// Lends the plan for changes.
    pub fn plan(&mut self) -> (plan: &mut PhysicalPlan)
        ensures
            *plan == old(self).plan,
            final(self).plan == *final(plan),
            final(self).name == old(self).name,
            final(self).next == old(self).next,
            final(self).datasource == old(self).datasource,
    {
        &mut self.plan
    }

    /// Wraps the serialized bytes of a context for transport: encodes them
    /// and writes the envelope as text.
    pub fn marshal(serialized: &Vec<u8>, encoding: Encoding) -> (text: String)
        requires
            encoding.encodable(serialized@),
        ensures
            encode_utf8(text@) == marshal_model(serialized@, encoding),
    {
        let env = CloudEnvironment { context: encoding.encoder(serialized), encoding };
        env.to_text()
    }

    /// Unwraps the serialized bytes of a context: reads the envelope and
    /// decodes what it carries.
    pub fn unmarshal(s: &str) -> (r: Result<Vec<u8>, FlockError>)
        ensures
            r matches Ok(serialized) ==> unmarshal_model(encode_utf8(s@)) == Ok::<
                Seq<u8>,
                FlockError,
            >(serialized@),
            r matches Err(e) ==> unmarshal_model(encode_utf8(s@)) == Err::<Seq<u8>, FlockError>(e),
    {
        match CloudEnvironment::from_text(s) {
            Ok(env) => {
                proof {
                    let text = encode_utf8(s@);
                    let found = (env.context@, env.encoding);
                    assert(text == envelope_text(found.0, found.1));
                    let t = choose|t: (Seq<u8>, Encoding)| text == envelope_text(t.0, t.1);
                    lemma_envelope_unique(t.0, t.1, found.0, found.1);
                }
                env.encoding.decoder(&env.context)
            },
            Err(e) => Err(e),
        }
    }

    /// Attaches the partitions to the leaf of the plan that a breadth-first
    /// walk from the root reaches first. Nothing else changes.
    pub fn feed_one_source(&mut self, partitions: &Vec<Vec<Batch>>)
        ensures
            final(self).plan@ == old(self).plan@.install(
                old(self).plan@.first_leaf(),
                groups_view(*partitions),
            ),
            final(self).name == old(self).name,
            final(self).next == old(self).next,
            final(self).datasource == old(self).datasource,
    {
        let path = self.plan.first_leaf_path();
        proof {
            crate::plan::lemma_first_leaf(self.plan@);
            assert(path_view(path).skip(0) =~= path_view(path));
        }
        let data = clone_groups(partitions);
        self.plan.replace_leaf_data(&path, 0, data);
    }

    /// Offers both inputs to every leaf of the plan: each leaf takes the
    /// input whose schema, read from its first batch, agrees with the
    /// leaf's own; the right input where both agree. Nothing else changes.
    /// Both inputs must hold a batch in their first group.
    pub fn feed_two_source(&mut self, left: &Vec<Vec<Batch>>, right: &Vec<Vec<Batch>>)
        requires
            left@.len() > 0,
            left@[0]@.len() > 0,
            right@.len() > 0,
            right@[0]@.len() > 0,
        ensures
            final(self).plan@ == old(self).plan@.feed_two(
                groups_view(*left),
                schema_of(left@[0]@[0]),
                groups_view(*right),
                schema_of(right@[0]@[0]),
            ),
            final(self).name == old(self).name,
            final(self).next == old(self).next,
            final(self).datasource == old(self).datasource,
    {
        let left_schema = batch_schema(&left[0][0]);
        let right_schema = batch_schema(&right[0][0]);
        self.plan.feed_two(left, &left_schema, right, &right_schema);
    }
}

} // verus!
