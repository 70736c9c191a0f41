//! Gossip topics.
//!
//! A topic reads `/leanconsensus/{fork}/{kind}/ssz_snappy`, for example
//! `/leanconsensus/devnet3/blocks/ssz_snappy`.

use vstd::prelude::*;
use vstd::slice::slice_subrange;
use vstd::string::StringExecFns;

use crate::networking::gossipsub::error::{GossipsubError, TopicFault};
use crate::numbers;
use crate::text;

verus! {

/// First segment of every topic.
pub const TOPIC_PREFIX: &'static str = "leanconsensus";

/// Last segment of every topic.
pub const ENCODING_POSTFIX: &'static str = "ssz_snappy";

/// Kind segment of signed blocks.
pub const LEAN_BLOCK_TOPIC: &'static str = "blocks";

/// Kind segment of aggregated attestations.
pub const LEAN_AGGREGATION_TOPIC: &'static str = "aggregation";

/// Start of the kind segment of an attestation subnet.
pub const LEAN_ATTESTATION_SUBNET_PREFIX: &'static str = "attestation_";

/// What the `Debug` form of a `str` prints: the text in quotes, with what is
/// special in it escaped.
pub uninterp spec fn quoted(s: Seq<char>) -> Seq<char>;

/// The `Debug` form of a `str`.
#[verifier::external_body]
fn quoted_string(s: &str) -> (r: String)
    ensures
        r@ == quoted(s@),
{
    format!("{:?}", s)
}

/// What a topic carries.
#[derive(Clone, Copy, Debug, PartialEq, Eq, Hash, Structural)]
pub enum LeanGossipTopicKind {
    /// Signed blocks.
    Block,
    /// Aggregated attestations.
    AggregatedAttestation,
    /// Attestations of one subnet.
    AttestationSubnet(u64),
}

/// A parsed topic.
#[derive(Clone, Debug, PartialEq, Eq, Hash)]
pub struct LeanGossipTopic {
    /// The fork's name, for example `devnet3`.
    pub fork: String,
    /// What the topic carries.
    pub kind: LeanGossipTopicKind,
}

/// The value of a [`LeanGossipTopic`].
#[verifier::ext_equal]
pub struct TopicModel {
    pub fork: Seq<char>,
    pub kind: LeanGossipTopicKind,
}

impl View for LeanGossipTopic {
    type V = TopicModel;

    open spec fn view(&self) -> TopicModel {
        TopicModel { fork: self.fork@, kind: self.kind }
    }
}

/// `s` without the copies of `prefix` at its start.
pub open spec fn without_prefixes(s: Seq<char>, prefix: Seq<char>) -> Seq<char>
    decreases s.len(),
{
    if prefix.len() > 0 && text::begins_with(s, prefix) {
        without_prefixes(s.skip(prefix.len() as int), prefix)
    } else {
        s
    }
}

impl LeanGossipTopicKind {
    /// The kind's segment.
    pub open spec fn segment(self) -> Seq<char> {
        match self {
            LeanGossipTopicKind::Block => "blocks"@,
            LeanGossipTopicKind::AggregatedAttestation => "aggregation"@,
            LeanGossipTopicKind::AttestationSubnet(id) => "attestation_"@ + text::decimal(
                id as nat,
            ),
        }
    }

    /// The kind that a segment names.
    pub open spec fn of_segment(s: Seq<char>) -> Result<LeanGossipTopicKind, TopicFault> {
        if s == "blocks"@ {
            Ok(LeanGossipTopicKind::Block)
        } else if s == "aggregation"@ {
            Ok(LeanGossipTopicKind::AggregatedAttestation)
        } else if text::begins_with(s, "attestation_"@) {
            let id = without_prefixes(s, "attestation_"@);
            match numbers::unsigned_read(id, u64::MAX as nat) {
                Ok(n) => Ok(LeanGossipTopicKind::AttestationSubnet(n as u64)),
                Err(f) => Err(
                    TopicFault::InvalidTopic(
                        "Invalid attestation subnet id: "@ + quoted(id) + ", error: "@ + f.text(),
                    ),
                ),
            }
        } else {
            Err(TopicFault::InvalidTopic("Invalid topic: "@ + quoted(s)))
        }
    }

    /// Writes the kind's segment.
    pub fn segment_string(&self) -> (r: String)
        ensures
            r@ == self.segment(),
    {
        match self {
            LeanGossipTopicKind::Block => "blocks".to_string(),
            LeanGossipTopicKind::AggregatedAttestation => "aggregation".to_string(),
            LeanGossipTopicKind::AttestationSubnet(id) => {
                let mut s: String = "attestation_".to_string();
                s.append(text::decimal_string(*id).as_str());
                s
            },
        }
    }

    /// Reads a kind's segment.
    fn parse_segment(s: &[char]) -> (r: Result<LeanGossipTopicKind, GossipsubError>)
        ensures
            match r {
                Ok(k) => Self::of_segment(s@) == Ok::<LeanGossipTopicKind, TopicFault>(k),
                Err(e) => Self::of_segment(s@) == Err::<LeanGossipTopicKind, TopicFault>(e@),
            },
    {
        if text::spells(s, "blocks") {
            return Ok(LeanGossipTopicKind::Block);
        }
        if text::spells(s, "aggregation") {
            return Ok(LeanGossipTopicKind::AggregatedAttestation);
        }
        let prefix = text::to_chars("attestation_");
        if !text::starts_with(s, prefix.as_slice()) {
            let mut m: String = "Invalid topic: ".to_string();
            m.append(quoted_string(text::from_chars(s).as_str()).as_str());
            return Err(GossipsubError::InvalidTopic(m));
        }
        proof {
            reveal_strlit("attestation_");
        }
        let width: usize = prefix.len();
        let mut rest = s;
        while text::starts_with(rest, prefix.as_slice())
            invariant
                width == prefix@.len(),
                width > 0,
                prefix@ == "attestation_"@,
                without_prefixes(rest@, prefix@) == without_prefixes(s@, prefix@),
            decreases rest@.len(),
        {
            let shorter = slice_subrange(rest, width, rest.len());
            assert(shorter@ =~= rest@.skip(width as int));
            rest = shorter;
        }
        match numbers::read_unsigned(rest, u64::MAX) {
            Ok(n) => Ok(LeanGossipTopicKind::AttestationSubnet(n)),
            Err(f) => {
                let mut m: String = "Invalid attestation subnet id: ".to_string();
                m.append(quoted_string(text::from_chars(rest).as_str()).as_str());
                m.append(", error: ");
                m.append(f.message().as_str());
                Err(GossipsubError::InvalidTopic(m))
            },
        }
    }
}

impl TopicModel {
    /// The whole topic.
    pub open spec fn text(self) -> Seq<char> {
        "/leanconsensus/"@ + self.fork + "/"@ + self.kind.segment() + "/ssz_snappy"@
    }

    /// The topic that a text names.
    pub open spec fn of_text(s: Seq<char>) -> Result<TopicModel, TopicFault> {
        let parts = text::pieces(text::without_leading(s, '/'), '/');
        if parts.len() != 4 || parts[0] != "leanconsensus"@ || parts[3] != "ssz_snappy"@ {
            Err(
                TopicFault::InvalidTopic(
                    "Invalid topic format: TopicHash { hash: "@ + quoted(s) + " }"@,
                ),
            )
        } else {
            match LeanGossipTopicKind::of_segment(parts[2]) {
                Ok(kind) => Ok(TopicModel { fork: parts[1], kind }),
                Err(e) => Err(e),
            }
        }
    }

    /// A topic is found again by its text, if its fork is one segment.
    pub proof fn law_text_names_the_topic(self)
        requires
            !self.fork.contains('/'),
        ensures
            TopicModel::of_text(self.text()) == Ok::<TopicModel, TopicFault>(self),
    {
        reveal_strlit("/leanconsensus/");
        reveal_strlit("leanconsensus");
        reveal_strlit("/");
        reveal_strlit("/ssz_snappy");
        reveal_strlit("ssz_snappy");
        let bar = seq!['/'];
        let last = "ssz_snappy"@;
        let kind_on = self.kind.segment() + bar + last;
        let fork_on = self.fork + bar + kind_on;
        let whole = "leanconsensus"@ + bar + fork_on;
        assert(self.text() =~= bar + whole);
        assert(self.text().skip(1) =~= whole);
        assert(text::without_leading(self.text(), '/') == whole) by {
            reveal_with_fuel(text::without_leading, 3);
        }
        lemma_segment(self.kind);
        text::lemma_only_piece(last, '/');
        text::lemma_leading_piece(self.kind.segment(), last, '/');
        text::lemma_leading_piece(self.fork, kind_on, '/');
        text::lemma_leading_piece("leanconsensus"@, fork_on, '/');
        assert(text::pieces(whole, '/') =~= seq![
            "leanconsensus"@,
            self.fork,
            self.kind.segment(),
            last,
        ]);
    }
}

/// A numeral consists of digits.
proof fn lemma_digits(n: nat)
    ensures
        text::decimal(n).len() > 0,
        forall|i: int|
            0 <= i < text::decimal(n).len() ==> 48 <= #[trigger] text::decimal(n)[i] as u32 <= 57,
    decreases n,
{
    if n >= 10 {
        lemma_digits(n / 10);
    }
}

/// A kind is found again by its segment, which holds no separator.
pub proof fn lemma_segment(kind: LeanGossipTopicKind)
    ensures
        !kind.segment().contains('/'),
        LeanGossipTopicKind::of_segment(kind.segment()) == Ok::<LeanGossipTopicKind, TopicFault>(
            kind,
        ),
{
    reveal_strlit("blocks");
    reveal_strlit("aggregation");
    reveal_strlit("attestation_");
    match kind {
        LeanGossipTopicKind::Block => {},
        LeanGossipTopicKind::AggregatedAttestation => {
            assert("aggregation"@.len() != "blocks"@.len());
        },
        LeanGossipTopicKind::AttestationSubnet(id) => {
            let prefix = "attestation_"@;
            let digits = text::decimal(id as nat);
            let s = kind.segment();
            lemma_digits(id as nat);
            assert(s[1] == 't');
            assert("blocks"@[1] == 'l');
            assert("aggregation"@[1] == 'g');
            assert(s.take(prefix.len() as int) =~= prefix);
            assert(s.skip(prefix.len() as int) =~= digits);
            assert(!text::begins_with(digits, prefix)) by {
                if text::begins_with(digits, prefix) {
                    assert(digits.take(prefix.len() as int)[0] == digits[0]);
                    assert(prefix[0] == 'a');
                }
            }
            assert(without_prefixes(s, prefix) == digits) by {
                reveal_with_fuel(without_prefixes, 3);
            }
            numbers::law_numeral_reads_back(id as nat, u64::MAX as nat);
        },
    }
}

impl LeanGossipTopic {
    /// Reads a topic.
    pub fn from_topic_hash(topic: &str) -> (r: Result<Self, GossipsubError>)
        ensures
            match r {
                Ok(t) => TopicModel::of_text(topic@) == Ok::<TopicModel, TopicFault>(t@),
                Err(e) => TopicModel::of_text(topic@) == Err::<TopicModel, TopicFault>(e@),
            },
    {
        let chars = text::to_chars(topic);
        let body = text::strip_leading(chars.as_slice(), '/');
        let parts = text::split_all(body, '/');
        assert(parts@.len() == text::contents(parts@).len());
        assert forall|i: int| 0 <= i < parts@.len() implies #[trigger] parts@[i]@ == text::pieces(
            body@,
            '/',
        )[i] by {
            assert(text::contents(parts@)[i] == parts@[i]@);
        }
        if parts.len() != 4 || !text::spells(parts[0].as_slice(), "leanconsensus") || !text::spells(
            parts[3].as_slice(),
            "ssz_snappy",
        ) {
            let mut m: String = "Invalid topic format: TopicHash { hash: ".to_string();
            m.append(quoted_string(topic).as_str());
            m.append(" }");
            return Err(GossipsubError::InvalidTopic(m));
        }
        match LeanGossipTopicKind::parse_segment(parts[2].as_slice()) {
            Ok(kind) => Ok(LeanGossipTopic { fork: text::from_chars(parts[1].as_slice()), kind }),
            Err(e) => Err(e),
        }
    }

    /// Writes the whole topic.
    pub fn topic_string(&self) -> (r: String)
        ensures
            r@ == self@.text(),
    {
        let mut s: String = "/leanconsensus/".to_string();
        s.append(self.fork.as_str());
        s.append("/");
        s.append(self.kind.segment_string().as_str());
        s.append("/ssz_snappy");
        s
    }
}

} // verus!
