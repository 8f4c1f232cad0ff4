//! DNS messages, as far as an mDNS packet is read.
//!
//! `hickory_proto` decodes the wire format. The types here hold what it decodes, as
//! plain values.

use hickory_proto::op::Message;
use hickory_proto::rr::{Name, RData, Record};
use hickory_proto::ProtoError;
use vstd::prelude::*;
use vstd::slice::slice_subrange;
use vstd::utf8;

verus! {

/// The name under which peers announce themselves, fully qualified.
pub const SERVICE_NAME_FQDN: &'static str = "_p2p._udp.local.";

/// The name of the meta query for the services on a network, fully qualified.
pub const META_QUERY_SERVICE_FQDN: &'static str = "_services._dns-sd._udp.local.";

/// `hickory_proto::op::Message`, opaque.
#[verifier::external_type_specification]
#[verifier::external_body]
pub struct ExMessage(Message);

/// `hickory_proto::ProtoError`, opaque.
#[verifier::external_type_specification]
#[verifier::external_body]
pub struct ExProtoError(ProtoError);

/// A domain name: its labels from the leftmost to the one below the root, and
/// whether it ends in the root.
#[derive(Debug, PartialEq, Eq)]
pub struct DnsName {
    pub labels: Vec<Vec<u8>>,
    pub fqdn: bool,
}

/// The data of a resource record, where it is a domain name pointer or text.
#[derive(Debug, PartialEq, Eq)]
pub enum DnsData {
    Ptr(DnsName),
    Txt(Vec<Vec<u8>>),
    Other,
}

/// A resource record.
#[derive(Debug, PartialEq, Eq)]
pub struct DnsRecord {
    pub name: DnsName,
    /// Time to live in seconds.
    pub ttl: u32,
    pub data: DnsData,
}

/// A DNS message: its id, the names that it asks about, and its answers and
/// additional records.
#[derive(Debug, PartialEq, Eq)]
pub struct DnsMessage {
    pub id: u16,
    pub queries: Vec<DnsName>,
    pub answers: Vec<DnsRecord>,
    pub additionals: Vec<DnsRecord>,
}

/// The mathematical value of a [`DnsName`].
pub struct NameView {
    pub labels: Seq<Seq<u8>>,
    pub fqdn: bool,
}

/// The mathematical value of a [`DnsData`].
pub enum DataView {
    Ptr(NameView),
    Txt(Seq<Seq<u8>>),
    Other,
}

/// The mathematical value of a [`DnsRecord`].
pub struct RecordView {
    pub name: NameView,
    pub ttl: u32,
    pub data: DataView,
}

/// The mathematical value of a [`DnsMessage`].
pub struct MessageView {
    pub id: u16,
    pub queries: Seq<NameView>,
    pub answers: Seq<RecordView>,
    pub additionals: Seq<RecordView>,
}

impl View for DnsName {
    type V = NameView;

    open spec fn view(&self) -> NameView {
        NameView { labels: self.labels@.map_values(|l: Vec<u8>| l@), fqdn: self.fqdn }
    }
}

impl View for DnsData {
    type V = DataView;

    open spec fn view(&self) -> DataView {
        match *self {
            DnsData::Ptr(name) => DataView::Ptr(name@),
            DnsData::Txt(strings) => DataView::Txt(strings@.map_values(|s: Vec<u8>| s@)),
            DnsData::Other => DataView::Other,
        }
    }
}

impl View for DnsRecord {
    type V = RecordView;

    open spec fn view(&self) -> RecordView {
        RecordView { name: self.name@, ttl: self.ttl, data: self.data@ }
    }
}

impl View for DnsMessage {
    type V = MessageView;

    open spec fn view(&self) -> MessageView {
        MessageView {
            id: self.id,
            queries: self.queries@.map_values(|q: DnsName| q@),
            answers: self.answers@.map_values(|r: DnsRecord| r@),
            additionals: self.additionals@.map_values(|r: DnsRecord| r@),
        }
    }
}

/// The number of bytes that labels take on the wire, without the root label: each
/// has a length byte.
pub open spec fn encoded_len(labels: Seq<Seq<u8>>) -> nat
    decreases labels.len(),
{
    if labels.len() == 0 {
        0
    } else {
        encoded_len(labels.drop_last()) + 1 + labels.last().len()
    }
}

impl NameView {
    /// The limits that DNS sets: labels of 1 to 63 bytes, and names of at most 255
    /// bytes on the wire, the root label included.
    pub open spec fn wf(self) -> bool {
        &&& forall|i: int| 0 <= i < self.labels.len() ==> 1 <= (#[trigger] self.labels[i]).len() <= 63
        &&& encoded_len(self.labels) + 1 <= 255
    }

    /// Whether the name is fully qualified, not the root, and of labels that read in
    /// text as they are.
    pub open spec fn is_plain(self) -> bool {
        &&& self.fqdn
        &&& self.labels.len() > 0
        &&& forall|i: int| 0 <= i < self.labels.len() ==> is_plain_label(#[trigger] self.labels[i])
    }

    /// The name as text.
    pub open spec fn text(self) -> Seq<char> {
        if self.is_plain() {
            dotted(self.labels)
        } else {
            utf8_form(self)
        }
    }

    /// Whether two names are the same name: label by label, without regard to the
    /// case of ASCII letters.
    pub open spec fn same_as(self, other: NameView) -> bool {
        &&& self.fqdn == other.fqdn
        &&& self.labels.len() == other.labels.len()
        &&& forall|i: int|
            0 <= i < self.labels.len() ==> same_label(#[trigger] self.labels[i], other.labels[i])
    }
}

/// An ASCII capital letter's small letter; any other byte itself.
pub open spec fn lowercase(byte: u8) -> u8 {
    if 'A' as u8 <= byte <= 'Z' as u8 {
        (byte + 32) as u8
    } else {
        byte
    }
}

/// Whether two labels are equal but for the case of ASCII letters.
pub open spec fn same_label(a: Seq<u8>, b: Seq<u8>) -> bool {
    a.map_values(|byte: u8| lowercase(byte)) == b.map_values(|byte: u8| lowercase(byte))
}

impl RecordView {
    /// The names in the record keep the limits of DNS.
    pub open spec fn wf(self) -> bool {
        &&& self.name.wf()
        &&& self.data matches DataView::Ptr(target) ==> target.wf()
    }
}

impl MessageView {
    /// Every name in the message keeps the limits of DNS.
    pub open spec fn wf(self) -> bool {
        &&& forall|i: int| 0 <= i < self.queries.len() ==> (#[trigger] self.queries[i]).wf()
        &&& forall|i: int| 0 <= i < self.answers.len() ==> (#[trigger] self.answers[i]).wf()
        &&& forall|i: int| 0 <= i < self.additionals.len() ==> (#[trigger] self.additionals[i]).wf()
    }
}

/// What a decoded message holds: its id, and its queries and records in the order in
/// which `queries`, `answers` and `additionals` of `hickory_proto` give them.
pub uninterp spec fn contents(message: Message) -> MessageView;

/// The message that bytes encode, or `None` if they encode none: what
/// `Message::from_vec` of `hickory_proto` makes of them.
pub uninterp spec fn decoded_message(buf: Seq<u8>) -> Option<MessageView>;

/// The text that `hickory_proto::rr::Name::to_utf8` makes of a name.
pub uninterp spec fn utf8_form(name: NameView) -> Seq<char>;

/// Whether a byte of a label stands for itself in text: an ASCII letter or digit, an
/// underscore, or a hyphen that is not the first byte.
pub open spec fn is_plain_byte(byte: u8, first: bool) -> bool {
    ||| 'a' as u8 <= byte <= 'z' as u8
    ||| 'A' as u8 <= byte <= 'Z' as u8
    ||| '0' as u8 <= byte <= '9' as u8
    ||| byte == '_' as u8
    ||| byte == '-' as u8 && !first
}

/// Whether a label reads in text as it is: all its bytes stand for themselves, and
/// it does not begin with `xn--`, which marks an internationalized label.
pub open spec fn is_plain_label(label: Seq<u8>) -> bool {
    &&& forall|i: int| 0 <= i < label.len() ==> is_plain_byte(#[trigger] label[i], i == 0)
    &&& !(label.len() >= 4 && label[0] == 'x' as u8 && label[1] == 'n' as u8 && label[2]
        == '-' as u8 && label[3] == '-' as u8)
}

/// Labels as text, each with a dot behind it.
pub open spec fn dotted(labels: Seq<Seq<u8>>) -> Seq<char> {
    labels.flat_map(|label: Seq<u8>| label.map_values(|byte: u8| byte as char).push('.'))
}

/// `Message::from_vec` of `hickory_proto` decodes a message. That it depends on the
/// bytes alone, and that the names which it decodes keep the limits of DNS, is all
/// that is claimed: [`decoded_message`] names what it gives.
pub assume_specification[ Message::from_vec ](buffer: &[u8]) -> (r: Result<
    Message,
    ProtoError,
>)
    ensures
        match r {
            Ok(decoded) => decoded_message(buffer@) == Some(contents(decoded)) && contents(
                decoded,
            ).wf(),
            Err(_) => decoded_message(buffer@) is None,
        },
;

/// `Message::id` of `hickory_proto` gives the id in the header.
pub assume_specification[ Message::id ](decoded: &Message) -> (id: u16)
    ensures
        id == contents(*decoded).id,
;

/// `Message::queries` of `hickory_proto` gives the queries in order, here by name.
#[verifier::external_body]
fn queries(message: &Message) -> (names: Vec<DnsName>)
    ensures
        names@.map_values(|n: DnsName| n@) == contents(*message).queries,
{
    let labels = |name: &Name| name.iter().map(Vec::from).collect();
    let name = |name: &Name| DnsName { labels: labels(name), fqdn: name.is_fqdn() };
    message.queries().iter().map(|query| name(query.name())).collect()
}

/// `Message::answers` of `hickory_proto` gives the records of the answer section in
/// order.
#[verifier::external_body]
fn answers(message: &Message) -> (records: Vec<DnsRecord>)
    ensures
        records@.map_values(|r: DnsRecord| r@) == contents(*message).answers,
{
    let labels = |name: &Name| name.iter().map(Vec::from).collect();
    let name = |name: &Name| DnsName { labels: labels(name), fqdn: name.is_fqdn() };
    let data = |data: &RData| match data {
        RData::PTR(target) => DnsData::Ptr(name(target)),
        RData::TXT(text) => DnsData::Txt(text.iter().map(|s| s.to_vec()).collect()),
        _ => DnsData::Other,
    };
    let record = |r: &Record| DnsRecord { name: name(r.name()), ttl: r.ttl(), data: data(r.data()) };
    message.answers().iter().map(record).collect()
}

/// `Message::additionals` of `hickory_proto` gives the records of the additional
/// section in order.
#[verifier::external_body]
fn additionals(message: &Message) -> (records: Vec<DnsRecord>)
    ensures
        records@.map_values(|r: DnsRecord| r@) == contents(*message).additionals,
{
    let labels = |name: &Name| name.iter().map(Vec::from).collect();
    let name = |name: &Name| DnsName { labels: labels(name), fqdn: name.is_fqdn() };
    let data = |data: &RData| match data {
        RData::PTR(target) => DnsData::Ptr(name(target)),
        RData::TXT(text) => DnsData::Txt(text.iter().map(|s| s.to_vec()).collect()),
        _ => DnsData::Other,
    };
    let record = |r: &Record| DnsRecord { name: name(r.name()), ttl: r.ttl(), data: data(r.data()) };
    message.additionals().iter().map(record).collect()
}

/// `hickory_proto::rr::Name::to_utf8` writes a name as text; `to_string` writes the
/// same. It depends on the name alone: [`utf8_form`] names what it gives. Of a name
/// whose labels read as they are, it is the labels with a dot behind each. Escapes
/// and internationalized labels are left unsaid.
#[verifier::external_body]
pub(crate) fn to_utf8(name: &DnsName) -> (text: String)
    requires
        name@.wf(),
    ensures
        text@ == utf8_form(name@),
        name@.is_plain() ==> text@ == dotted(name@.labels),
{
    let mut n = Name::from_labels(name.labels.iter().map(|l| l.as_slice())).unwrap();
    n.set_fqdn(name.fqdn);
    n.to_utf8()
}

/// `hickory_proto::rr::Name::eq` compares two names without regard to the case of
/// ASCII letters.
#[verifier::external_body]
pub(crate) fn same_name(a: &DnsName, b: &DnsName) -> (r: bool)
    requires
        a@.wf(),
        b@.wf(),
    ensures
        r == a@.same_as(b@),
{
    let mut left = Name::from_labels(a.labels.iter().map(|l| l.as_slice())).unwrap();
    left.set_fqdn(a.fqdn);
    let mut right = Name::from_labels(b.labels.iter().map(|l| l.as_slice())).unwrap();
    right.set_fqdn(b.fqdn);
    left == right
}

/// Whether `Message::from_vec` rejects bytes with this error.
pub open spec fn rejected_with(buf: &[u8], reason: ProtoError) -> bool {
    call_ensures(Message::from_vec, (buf,), Err::<Message, ProtoError>(reason))
}

/// A packet that is not a DNS message, with what is wrong with it.
#[derive(Debug)]
pub struct MalformedPacket {
    pub reason: ProtoError,
}

impl DnsMessage {
    /// Decodes a message from its wire format. If that fails, the reason is the error
    /// that the decoder gave for these bytes.
    pub fn from_vec(buf: &[u8]) -> (r: Result<DnsMessage, MalformedPacket>)
        ensures
            match r {
                Ok(message) => {
                    &&& decoded_message(buf@) == Some(message@)
                    &&& decoded_message(buf@)->0.id == message.id
                    &&& decoded_message(buf@)->0.queries.len() == message.queries@.len()
                    &&& message@.wf()
                },
                Err(malformed) => decoded_message(buf@) is None && rejected_with(
                    buf,
                    malformed.reason,
                ),
            },
    {
        match Message::from_vec(buf) {
            Ok(decoded) => Ok(
                DnsMessage {
                    id: decoded.id(),
                    queries: queries(&decoded),
                    answers: answers(&decoded),
                    additionals: additionals(&decoded),
                },
            ),
            Err(reason) => Err(MalformedPacket { reason }),
        }
    }
}

/// A `<character-string>` that starts with a quote and does not end in another.
#[derive(Debug, PartialEq, Eq)]
pub struct UnterminatedString;

/// The ASCII code of a double quote.
pub const QUOTE: u8 = 0x22;

/// The content of a `<character-string>` as RFC 1035 defines it: the bytes
/// themselves, or those between the quotes if the first is a quote. A string that
/// opens a quote and does not close it has no content.
pub open spec fn character_string(from: Seq<u8>) -> Option<Seq<u8>> {
    if from.len() > 0 && from[0] == QUOTE {
        if from.len() > 1 && from.last() == QUOTE {
            Some(from.subrange(1, from.len() - 1))
        } else {
            None
        }
    } else {
        Some(from)
    }
}

/// Decodes a `<character-string>`. Backslashes are left as they are.
pub fn decode_character_string(from: &[u8]) -> (r: Result<&[u8], UnterminatedString>)
    ensures
        match r {
            Ok(content) => {
                &&& character_string(from@) == Some(content@)
                &&& from@ == content@ || from@ == seq![0x22u8] + content@ + seq![0x22u8]
            },
            Err(_) => {
                &&& character_string(from@) is None
                &&& from@[0] == 0x22 && (from@.len() == 1 || from@.last() != 0x22)
            },
        },
{
    if from.len() > 0 && from[0] == QUOTE {
        let len: usize = from.len();
        if len == 1 || from[len - 1] != QUOTE {
            return Err(UnterminatedString);
        }
        let content = slice_subrange(from, 1, len - 1);
        assert(from@ =~= seq![0x22u8] + content@ + seq![0x22u8]);
        return Ok(content);
    }
    Ok(from)
}

/// The name under which peers announce themselves, label by label.
pub open spec fn service_name() -> NameView {
    NameView {
        labels: seq![
            utf8::encode_utf8("_p2p"@),
            utf8::encode_utf8("_udp"@),
            utf8::encode_utf8("local"@),
        ],
        fqdn: true,
    }
}

/// The name of the meta query for the services on a network, label by label.
pub open spec fn meta_query_name() -> NameView {
    NameView {
        labels: seq![
            utf8::encode_utf8("_services"@),
            utf8::encode_utf8("_dns-sd"@),
            utf8::encode_utf8("_udp"@),
            utf8::encode_utf8("local"@),
        ],
        fqdn: true,
    }
}

/// [`SERVICE_NAME_FQDN`] is the service name as text.
pub proof fn law_service_name_text()
    ensures
        service_name().text() == SERVICE_NAME_FQDN@,
{
    let labels = service_name().labels;
    reveal_strlit("_p2p");
    reveal_strlit("_udp");
    reveal_strlit("local");
    reveal_strlit("_p2p._udp.local.");
    utf8::is_ascii_chars_encode_utf8("_p2p"@);
    utf8::is_ascii_chars_encode_utf8("_udp"@);
    utf8::is_ascii_chars_encode_utf8("local"@);
    assert(is_plain_label(labels[0]));
    assert(is_plain_label(labels[1]));
    assert(is_plain_label(labels[2]));
    assert(service_name().is_plain());
    lemma_dotted_push(labels.take(2), labels[2]);
    lemma_dotted_push(labels.take(1), labels[1]);
    lemma_dotted_push(labels.take(0), labels[0]);
    assert(labels.take(2).push(labels[2]) =~= labels);
    assert(labels.take(1).push(labels[1]) =~= labels.take(2));
    assert(labels.take(0).push(labels[0]) =~= labels.take(1));
    assert(labels.take(0) =~= Seq::<Seq<u8>>::empty());
    assert(dotted(labels) =~= SERVICE_NAME_FQDN@);
}

/// [`META_QUERY_SERVICE_FQDN`] is the name of the meta query as text.
pub proof fn law_meta_query_text()
    ensures
        meta_query_name().text() == META_QUERY_SERVICE_FQDN@,
{
    let labels = meta_query_name().labels;
    reveal_strlit("_services");
    reveal_strlit("_dns-sd");
    reveal_strlit("_udp");
    reveal_strlit("local");
    reveal_strlit("_services._dns-sd._udp.local.");
    utf8::is_ascii_chars_encode_utf8("_services"@);
    utf8::is_ascii_chars_encode_utf8("_dns-sd"@);
    utf8::is_ascii_chars_encode_utf8("_udp"@);
    utf8::is_ascii_chars_encode_utf8("local"@);
    assert(is_plain_label(labels[0]));
    assert(is_plain_label(labels[1]));
    assert(is_plain_label(labels[2]));
    assert(is_plain_label(labels[3]));
    assert(meta_query_name().is_plain());
    lemma_dotted_push(labels.take(3), labels[3]);
    lemma_dotted_push(labels.take(2), labels[2]);
    lemma_dotted_push(labels.take(1), labels[1]);
    lemma_dotted_push(labels.take(0), labels[0]);
    assert(labels.take(3).push(labels[3]) =~= labels);
    assert(labels.take(2).push(labels[2]) =~= labels.take(3));
    assert(labels.take(1).push(labels[1]) =~= labels.take(2));
    assert(labels.take(0).push(labels[0]) =~= labels.take(1));
    assert(labels.take(0) =~= Seq::<Seq<u8>>::empty());
    assert(dotted(labels) =~= META_QUERY_SERVICE_FQDN@);
}

proof fn lemma_dotted_push(labels: Seq<Seq<u8>>, label: Seq<u8>)
    ensures
        dotted(labels.push(label)) == dotted(labels) + label.map_values(
            |byte: u8| byte as char,
        ).push('.'),
        dotted(Seq::empty()) == Seq::<char>::empty(),
{
    let text = |label: Seq<u8>| label.map_values(|byte: u8| byte as char).push('.');
    labels.lemma_flat_map_push(text, label);
    assert(Seq::<Seq<u8>>::empty().flat_map(text) =~= Seq::<char>::empty());
}

/// Quotes around a string are taken off, one pair and no more; a string that does not
/// begin with one comes through as it is; one that opens a quote and does not close it
/// has no content.
pub proof fn law_quotes_come_off(from: Seq<u8>, content: Seq<u8>)
    ensures
        character_string(seq!['"' as u8] + content + seq!['"' as u8]) == Some(content),
        from.len() == 0 || from[0] != '"' as u8 ==> character_string(from) == Some(from),
        character_string(from) is None <==> from.len() > 0 && from[0] == '"' as u8 && (from.len()
            == 1 || from.last() != '"' as u8),
{
    let quoted = seq!['"' as u8] + content + seq!['"' as u8];
    assert(quoted.subrange(1, quoted.len() - 1) =~= content);
}

/// Two labels are the same exactly if they are of one length and each byte is equal or
/// the other case of an ASCII letter.
pub proof fn law_labels_differ_in_case_only(a: Seq<u8>, b: Seq<u8>)
    ensures
        same_label(a, b) <==> a.len() == b.len() && forall|i: int|
            0 <= i < a.len() ==> {
                ||| #[trigger] a[i] == b[i]
                ||| 'A' as u8 <= a[i] <= 'Z' as u8 && b[i] == a[i] + 32
                ||| 'A' as u8 <= b[i] <= 'Z' as u8 && a[i] == b[i] + 32
            },
{
    let low_a = a.map_values(|byte: u8| lowercase(byte));
    let low_b = b.map_values(|byte: u8| lowercase(byte));
    if same_label(a, b) {
        assert(low_a.len() == low_b.len());
        assert forall|i: int| 0 <= i < a.len() implies {
            ||| #[trigger] a[i] == b[i]
            ||| 'A' as u8 <= a[i] <= 'Z' as u8 && b[i] == a[i] + 32
            ||| 'A' as u8 <= b[i] <= 'Z' as u8 && a[i] == b[i] + 32
        } by {
            assert(low_a[i] == low_b[i]);
        }
    }
    if a.len() == b.len() && forall|i: int|
        0 <= i < a.len() ==> {
            ||| #[trigger] a[i] == b[i]
            ||| 'A' as u8 <= a[i] <= 'Z' as u8 && b[i] == a[i] + 32
            ||| 'A' as u8 <= b[i] <= 'Z' as u8 && a[i] == b[i] + 32
        } {
        assert(low_a =~= low_b);
    }
}

/// Being the same name is an equivalence, and differs from equality only in the case
/// of letters: it asks for as many labels, each of them the same, and for the root at
/// the end of both names or of neither.
pub proof fn law_same_name(a: NameView, b: NameView, c: NameView)
    ensures
        a.same_as(a),
        a.same_as(b) ==> b.same_as(a),
        a.same_as(b) && b.same_as(c) ==> a.same_as(c),
        a.same_as(b) <==> a.fqdn == b.fqdn && a.labels.len() == b.labels.len() && forall|i: int|
            0 <= i < a.labels.len() ==> same_label(#[trigger] a.labels[i], b.labels[i]),
{
    if a.same_as(b) {
        assert forall|i: int| 0 <= i < b.labels.len() implies same_label(
            #[trigger] b.labels[i],
            a.labels[i],
        ) by {
            assert(same_label(a.labels[i], b.labels[i]));
        }
        if b.same_as(c) {
            assert forall|i: int| 0 <= i < a.labels.len() implies same_label(
                #[trigger] a.labels[i],
                c.labels[i],
            ) by {
                assert(same_label(b.labels[i], c.labels[i]));
            }
        }
    }
}

/// The value of a name is its labels, byte by byte and in order, and whether it ends in
/// the root.
pub proof fn law_name_value(name: DnsName, i: int)
    ensures
        name@.fqdn == name.fqdn,
        name@.labels.len() == name.labels@.len(),
        0 <= i < name.labels@.len() ==> name@.labels[i] == name.labels@[i]@,
{
}

/// The value of a record is that of its name and data and its time to live. Text keeps
/// every string, in order.
pub proof fn law_record_value(record: DnsRecord, target: DnsName, strings: Vec<Vec<u8>>, i: int)
    ensures
        record@.name == record.name@,
        record@.ttl == record.ttl,
        record@.data == record.data@,
        DnsData::Ptr(target)@ == DataView::Ptr(target@),
        DnsData::Other@ == DataView::Other,
        DnsData::Txt(strings)@ matches DataView::Txt(texts) && {
            &&& texts.len() == strings@.len()
            &&& 0 <= i < strings@.len() ==> texts[i] == strings@[i]@
        },
{
}

/// The value of a message is its id and the values of its queries and records, section
/// by section and in order.
pub proof fn law_message_value(message: DnsMessage, i: int)
    ensures
        message@.id == message.id,
        message@.queries.len() == message.queries@.len(),
        message@.answers.len() == message.answers@.len(),
        message@.additionals.len() == message.additionals@.len(),
        0 <= i < message.queries@.len() ==> message@.queries[i] == message.queries@[i]@,
        0 <= i < message.answers@.len() ==> message@.answers[i] == message.answers@[i]@,
        0 <= i < message.additionals@.len() ==> message@.additionals[i]
            == message.additionals@[i]@,
{
}

/// The text of a plain name, label by label: each is written as it is, with a dot
/// behind it.
pub proof fn law_plain_name_text(name: NameView, longer: NameView, label: Seq<u8>)
    requires
        longer.is_plain(),
        longer.labels == name.labels.push(label),
    ensures
        longer.text().len() == dotted(name.labels).len() + label.len() + 1,
        longer.text().take(dotted(name.labels).len() as int) == dotted(name.labels),
        longer.text().last() == '.',
        forall|i: int|
            0 <= i < label.len() ==> longer.text()[dotted(name.labels).len() + i]
                == #[trigger] label[i] as char,
        name.labels.len() == 0 ==> dotted(name.labels) == Seq::<char>::empty(),
        name.is_plain() ==> name.text() == dotted(name.labels),
{
    lemma_dotted_push(name.labels, label);
    assert(longer.text().take(dotted(name.labels).len() as int) =~= dotted(name.labels));
    if name.labels.len() == 0 {
        assert(name.labels =~= Seq::<Seq<u8>>::empty());
    }
}

/// The limits on names, label by label: a label counts its bytes and one more, the root
/// counts one, and nothing else of a name counts. A message keeps the limits if all
/// names in it do.
pub proof fn law_dns_limits(name: NameView, label: Seq<u8>, message: MessageView)
    ensures
        encoded_len(Seq::empty()) == 0,
        encoded_len(name.labels.push(label)) == encoded_len(name.labels) + label.len() + 1,
        name.wf() <==> encoded_len(name.labels) <= 254 && forall|i: int|
            0 <= i < name.labels.len() ==> 0 < (#[trigger] name.labels[i]).len() < 64,
        message.wf() <==> {
            &&& forall|i: int| 0 <= i < message.queries.len() ==> (#[trigger] message.queries[i]).wf()
            &&& forall|i: int|
                0 <= i < message.answers.len() ==> (#[trigger] message.answers[i]).name.wf() && (
                message.answers[i].data matches DataView::Ptr(target) ==> target.wf())
            &&& forall|i: int|
                0 <= i < message.additionals.len() ==> (#[trigger] message.additionals[i]).name.wf()
                    && (message.additionals[i].data matches DataView::Ptr(target) ==> target.wf())
        },
{
    assert(name.labels.push(label).drop_last() =~= name.labels);
}

/// The reason for which bytes are rejected is an error that `Message::from_vec` gives
/// for these bytes, and they are then no message.
pub proof fn law_rejected_by_decoder(buf: &[u8], reason: ProtoError)
    requires
        rejected_with(buf, reason),
    ensures
        call_ensures(Message::from_vec, (buf,), Err::<Message, ProtoError>(reason)),
        decoded_message(buf@) is None,
{
}

} // verus!
