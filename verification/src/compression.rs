//! Message compression: the encodings, how peers agree on one by header fields, and
//! the compression and decompression of message bodies.

use bytes::BytesMut;
use http::header::{HeaderMap, HeaderValue};
use linkedbytes::LinkedBytes;
use vstd::prelude::*;
use vstd::slice::slice_subrange;
use vstd::string::*;
use vstd::utf8::*;

use crate::backend;
use crate::buffer;
use crate::header;
use crate::text;

verus! {

/// The field that names the encoding of a message.
pub const ENCODING_HEADER: &'static str = "grpc-encoding";

/// The field that lists the encodings a peer accepts.
pub const ACCEPT_ENCODING_HEADER: &'static str = "grpc-accept-encoding";

/// The level used where none is configured.
pub const DEFAULT_LEVEL: u32 = 6;

/// The step in which room for a message is reserved.
pub const BUFFER_SIZE: usize = 8192;

/// How much work a compressor puts into a message.
#[derive(Clone, Copy, Debug, PartialEq, Eq, Structural)]
pub struct Level {
    pub value: u32,
}

impl Level {
    /// A level given by its number, on a scale that starts at 0 for no compression.
    pub fn new(value: u32) -> (level: Level)
        ensures
            level.value == value,
    {
        Level { value }
    }

    /// The level of no compression.
    pub fn none() -> (level: Level)
        ensures
            level.value == 0,
    {
        Level { value: 0 }
    }

    /// The level that optimizes for size.
    pub fn best() -> (level: Level)
        ensures
            level.value == 9,
    {
        Level { value: 9 }
    }

    /// The level that optimizes for speed.
    pub fn fast() -> (level: Level)
        ensures
            level.value == 1,
    {
        Level { value: 1 }
    }

    /// The number of the level.
    pub fn level(&self) -> (value: u32)
        ensures
            value == self.value,
    {
        self.value
    }
}

impl Default for Level {
    fn default() -> (level: Self)
        ensures
            level.value == DEFAULT_LEVEL,
    {
        Level { value: DEFAULT_LEVEL }
    }
}

#[derive(Clone, Copy, Debug, PartialEq, Eq, Structural)]
pub struct GzipConfig {
    pub level: Level,
}

impl Default for GzipConfig {
    fn default() -> (config: Self)
        ensures
            config.level.value == DEFAULT_LEVEL,
    {
        GzipConfig { level: Level::new(DEFAULT_LEVEL) }
    }
}

#[derive(Clone, Copy, Debug, PartialEq, Eq, Structural)]
pub struct ZlibConfig {
    pub level: Level,
}

impl Default for ZlibConfig {
    fn default() -> (config: Self)
        ensures
            config.level.value == DEFAULT_LEVEL,
    {
        ZlibConfig { level: Level::new(DEFAULT_LEVEL) }
    }
}

#[derive(Clone, Copy, Debug, PartialEq, Eq, Structural)]
pub struct ZstdConfig {
    pub level: Level,
}

impl Default for ZstdConfig {
    fn default() -> (config: Self)
        ensures
            config.level.value == DEFAULT_LEVEL,
    {
        ZstdConfig { level: Level::new(DEFAULT_LEVEL) }
    }
}

/// The encodings of a message. Two of them are equal when they are of one kind,
/// whatever their configurations.
#[derive(Clone, Copy, Debug)]
pub enum CompressionEncoding {
    Identity,
    Gzip(Option<GzipConfig>),
    Zlib(Option<ZlibConfig>),
    Zstd(Option<ZstdConfig>),
}

/// Whether two encodings are of one kind.
pub open spec fn same_kind(left: CompressionEncoding, right: CompressionEncoding) -> bool {
    match (left, right) {
        (CompressionEncoding::Identity, CompressionEncoding::Identity) => true,
        (CompressionEncoding::Gzip(_), CompressionEncoding::Gzip(_)) => true,
        (CompressionEncoding::Zlib(_), CompressionEncoding::Zlib(_)) => true,
        (CompressionEncoding::Zstd(_), CompressionEncoding::Zstd(_)) => true,
        _ => false,
    }
}

impl PartialEq for CompressionEncoding {
    fn eq(&self, other: &Self) -> (r: bool) {
        match (self, other) {
            (CompressionEncoding::Gzip(_), CompressionEncoding::Gzip(_)) => true,
            (CompressionEncoding::Zlib(_), CompressionEncoding::Zlib(_)) => true,
            (CompressionEncoding::Zstd(_), CompressionEncoding::Zstd(_)) => true,
            (CompressionEncoding::Identity, CompressionEncoding::Identity) => true,
            _ => false,
        }
    }
}

impl vstd::std_specs::cmp::PartialEqSpecImpl for CompressionEncoding {
    open spec fn obeys_eq_spec() -> bool {
        true
    }

    open spec fn eq_spec(&self, other: &Self) -> bool {
        same_kind(*self, *other)
    }
}

/// The name of an encoding in header fields.
pub open spec fn encoding_name(encoding: CompressionEncoding) -> Seq<char> {
    match encoding {
        CompressionEncoding::Gzip(_) => "gzip"@,
        CompressionEncoding::Zlib(_) => "zlib"@,
        CompressionEncoding::Zstd(_) => "zstd"@,
        CompressionEncoding::Identity => "identity"@,
    }
}

/// The octets of the names of some encodings, one piece for each.
pub open spec fn name_pieces(encodings: Seq<CompressionEncoding>) -> Seq<Seq<u8>> {
    encodings.map_values(|encoding: CompressionEncoding| encode_utf8(encoding_name(encoding)))
}

/// The field value that lists some encodings: their names with commas between them.
pub open spec fn composed(encodings: Seq<CompressionEncoding>) -> Seq<u8> {
    text::joined(name_pieces(encodings), 44)
}

/// The names are lower case letters, so they hold no comma and no white space, and all
/// stand in printable ASCII.
pub proof fn lemma_names(encoding: CompressionEncoding)
    ensures
        encode_utf8(encoding_name(encoding)).len() >= 4,
        forall|i: int|
            0 <= i < encode_utf8(encoding_name(encoding)).len() ==> 97 <= #[trigger] encode_utf8(
                encoding_name(encoding),
            )[i] <= 122,
{
    reveal_strlit("gzip");
    reveal_strlit("zlib");
    reveal_strlit("zstd");
    reveal_strlit("identity");
    let name = encoding_name(encoding);
    assert(is_ascii_chars(name));
    is_ascii_chars_encode_utf8(name);
    assert forall|i: int| 0 <= i < encode_utf8(name).len() implies 97 <= #[trigger] encode_utf8(
        name,
    )[i] <= 122 by {
        assert(encode_utf8(name)[i] == name[i] as u8);
    }
}

/// The name of an encoding as text.
fn name_of(encoding: &CompressionEncoding) -> (name: &'static str)
    ensures
        name@ == encoding_name(*encoding),
{
    match encoding {
        CompressionEncoding::Gzip(_) => "gzip",
        CompressionEncoding::Zlib(_) => "zlib",
        CompressionEncoding::Zstd(_) => "zstd",
        CompressionEncoding::Identity => "identity",
    }
}

/// Lists some encodings in one header value.
pub fn compose_encodings(encodings: &[CompressionEncoding]) -> (value: HeaderValue)
    ensures
        header::octets(value) == composed(encodings@),
{
    let mut list = String::new();
    let mut i: usize = 0;
    assert(encode_utf8(list@) =~= composed(encodings@.take(0)));
    while i < encodings.len()
        invariant
            i <= encodings@.len(),
            encode_utf8(list@) == composed(encodings@.take(i as int)),
            header::all_visible(encode_utf8(list@)),
        decreases encodings@.len() - i,
    {
        let ghost before = list@;
        let ghost head = encodings@.take(i as int);
        let name = name_of(&encodings[i]);
        if i > 0 {
            list.append(",");
        }
        list.append(name);
        proof {
            let comma = ","@;
            reveal_strlit(",");
            assert(is_ascii_chars(comma));
            is_ascii_chars_encode_utf8(comma);
            assert(comma[0] as u8 == 44u8);
            assert(encode_utf8(comma) =~= seq![44u8]);
            lemma_names(encodings@[i as int]);
            assert(encodings@.take(i + 1) =~= head.push(encodings@[i as int]));
            assert(name_pieces(encodings@.take(i + 1)) =~= name_pieces(head).push(
                encode_utf8(name@),
            ));
            if i > 0 {
                text::lemma_encode_concat(before, comma);
                text::lemma_encode_concat(before + comma, name@);
                text::lemma_joined_push(name_pieces(head), encode_utf8(name@), 44);
            } else {
                assert(head =~= Seq::empty());
                assert(before =~= Seq::empty());
                assert(before + name@ =~= name@);
                assert(name_pieces(encodings@.take(i + 1)) =~= seq![encode_utf8(name@)]);
            }
        }
        i = i + 1;
    }
    assert(encodings@.take(i as int) =~= encodings@);
    HeaderValue::from_str(list.as_str()).unwrap()
}

/// Whether one of `encodings` is of the kind of `encoding`.
pub open spec fn enabled(encoding: CompressionEncoding, encodings: Seq<CompressionEncoding>) -> bool {
    exists|i: int| 0 <= i < encodings.len() && same_kind(#[trigger] encodings[i], encoding)
}

/// Whether one of `encodings` equals `encoding`.
fn is_enabled(encoding: CompressionEncoding, encodings: &[CompressionEncoding]) -> (r: bool)
    ensures
        r == enabled(encoding, encodings@),
{
    let mut i: usize = 0;
    while i < encodings.len()
        invariant
            i <= encodings@.len(),
            forall|j: int| 0 <= j < i ==> !same_kind(#[trigger] encodings@[j], encoding),
        decreases encodings@.len() - i,
    {
        if encodings[i] == encoding {
            assert(same_kind(encodings@[i as int], encoding));
            return true;
        }
        i = i + 1;
    }
    false
}

/// The first of `available` that is of the kind of `encoding`.
pub open spec fn first_of_kind(
    available: Seq<CompressionEncoding>,
    encoding: CompressionEncoding,
) -> Option<CompressionEncoding>
    decreases available.len(),
{
    if available.len() == 0 {
        None
    } else if same_kind(available[0], encoding) {
        Some(available[0])
    } else {
        first_of_kind(available.drop_first(), encoding)
    }
}

/// Finds the first of `available` that equals `encoding`.
fn find_kind(available: &[CompressionEncoding], encoding: CompressionEncoding) -> (r: Option<
    CompressionEncoding,
>)
    ensures
        r == first_of_kind(available@, encoding),
{
    let mut i: usize = 0;
    assert(available@.skip(0) =~= available@);
    while i < available.len()
        invariant
            i <= available@.len(),
            first_of_kind(available@, encoding) == first_of_kind(
                available@.skip(i as int),
                encoding,
            ),
        decreases available@.len() - i,
    {
        if available[i] == encoding {
            return Some(available[i]);
        }
        assert(available@.skip(i as int).drop_first() =~= available@.skip(i + 1));
        i = i + 1;
    }
    None
}

/// The kind of compression that an entry of an accept list names: exactly the names
/// of the three compressing encodings name one.
pub open spec fn named_kind(name: Seq<u8>) -> Option<CompressionEncoding> {
    if name == "gzip".spec_bytes() {
        Some(CompressionEncoding::Gzip(None))
    } else if name == "zlib".spec_bytes() {
        Some(CompressionEncoding::Zlib(None))
    } else if name == "zstd".spec_bytes() {
        Some(CompressionEncoding::Zstd(None))
    } else {
        None
    }
}

/// What one entry of an accept list leads to.
pub open spec fn entry_choice(
    entry: Seq<u8>,
    available: Seq<CompressionEncoding>,
) -> Option<CompressionEncoding> {
    match named_kind(text::trimmed(entry)) {
        Some(kind) => first_of_kind(available, kind),
        None => None,
    }
}

/// What the first entry that leads to anything leads to.
pub open spec fn first_choice(
    entries: Seq<Seq<u8>>,
    available: Seq<CompressionEncoding>,
) -> Option<CompressionEncoding>
    decreases entries.len(),
{
    if entries.len() == 0 {
        None
    } else {
        match entry_choice(entries[0], available) {
            Some(encoding) => Some(encoding),
            None => first_choice(entries.drop_first(), available),
        }
    }
}

/// The encoding chosen for a peer that sends `list` as its accept list: the entries
/// stand between commas, with white space around them, in the peer's order; the first
/// whose kind is available decides, and is answered by the first of that kind.
pub open spec fn accepted(
    list: Seq<u8>,
    available: Seq<CompressionEncoding>,
) -> Option<CompressionEncoding> {
    first_choice(text::split_on(list, 44), available)
}

/// What one entry of an accept list leads to.
fn choose_entry(entry: &[u8], available: &[CompressionEncoding]) -> (r: Option<CompressionEncoding>)
    ensures
        r == entry_choice(entry@, available@),
{
    let name = text::trim(entry);
    if text::same(name, "gzip".as_bytes()) {
        find_kind(available, CompressionEncoding::Gzip(None))
    } else if text::same(name, "zlib".as_bytes()) {
        find_kind(available, CompressionEncoding::Zlib(None))
    } else if text::same(name, "zstd".as_bytes()) {
        find_kind(available, CompressionEncoding::Zstd(None))
    } else {
        None
    }
}

/// Picks an encoding for a peer from the octets of its accept list.
pub fn pick_accepted(list: &[u8], available: &[CompressionEncoding]) -> (r: Option<
    CompressionEncoding,
>)
    ensures
        r == accepted(list@, available@),
{
    let mut start: usize = 0;
    let mut i: usize = 0;
    assert(list@.skip(0) =~= list@);
    while i < list.len()
        invariant
            start <= i <= list@.len(),
            forall|j: int| start <= j < i ==> list@[j] != 44,
            accepted(list@, available@) == accepted(list@.skip(start as int), available@),
        decreases list@.len() - i,
    {
        if list[i] == 44 {
            let entry = slice_subrange(list, start, i);
            let chosen = choose_entry(entry, available);
            proof {
                let rest = list@.skip(start as int);
                text::lemma_split_at(rest, 44, i - start);
                assert(rest.take(i - start) =~= entry@);
                assert(rest.skip(i - start + 1) =~= list@.skip(i + 1));
                assert(text::split_on(rest, 44).drop_first() =~= text::split_on(
                    list@.skip(i + 1),
                    44,
                ));
            }
            if chosen.is_some() {
                return chosen;
            }
            start = i + 1;
        }
        i = i + 1;
    }
    let entry = slice_subrange(list, start, list.len());
    proof {
        let rest = list@.skip(start as int);
        assert(rest =~= entry@);
        assert(!rest.contains(44));
        assert(text::split_on(rest, 44) =~= seq![rest]);
        assert(text::split_on(rest, 44).drop_first() =~= Seq::empty());
        assert(first_choice(Seq::empty(), available@) is None);
    }
    choose_entry(entry, available)
}

/// Why a message is refused for the encoding that its header names.
#[derive(Debug)]
pub enum Status {
    /// The encoding is not supported.
    Unimplemented { message: String },
    /// The header value is not visible ASCII text.
    InvalidHeader,
}

/// The message for an encoding that is not supported.
pub open spec fn unsupported_message(name: Seq<char>) -> Seq<char> {
    "Content is compressed with `"@ + name + "` which isn't supported"@
}

/// What a message whose header names `name` is encoded with, when `encodings` are
/// enabled: `Some(None)` for a message that is not compressed, `None` for a name that
/// is not supported.
pub open spec fn announced(
    name: Seq<char>,
    encodings: Seq<CompressionEncoding>,
) -> Option<Option<CompressionEncoding>> {
    if name == "gzip"@ && enabled(CompressionEncoding::Gzip(None), encodings) {
        Some(Some(CompressionEncoding::Gzip(None)))
    } else if name == "zlib"@ && enabled(CompressionEncoding::Zlib(None), encodings) {
        Some(Some(CompressionEncoding::Zlib(None)))
    } else if name == "zstd"@ && enabled(CompressionEncoding::Zstd(None), encodings) {
        Some(Some(CompressionEncoding::Zstd(None)))
    } else if name == "identity"@ {
        Some(None)
    } else {
        None
    }
}

/// Whether two texts are the same.
fn same_text(left: &str, right: &str) -> (r: bool)
    ensures
        r <==> left@ == right@,
{
    proof {
        encode_utf8_decode_utf8(left@);
        encode_utf8_decode_utf8(right@);
    }
    text::same(left.as_bytes(), right.as_bytes())
}

/// Reads the name of a message's encoding.
pub fn read_announced(name: &str, encodings: &[CompressionEncoding]) -> (r: Result<
    Option<CompressionEncoding>,
    Status,
>)
    ensures
        match r {
            Ok(encoding) => announced(name@, encodings@) == Some(encoding),
            Err(Status::Unimplemented { message }) => {
                &&& announced(name@, encodings@) is None
                &&& message@ == unsupported_message(name@)
            },
            Err(Status::InvalidHeader) => false,
        },
{
    if same_text(name, "gzip") && is_enabled(CompressionEncoding::Gzip(None), encodings) {
        Ok(Some(CompressionEncoding::Gzip(None)))
    } else if same_text(name, "zlib") && is_enabled(CompressionEncoding::Zlib(None), encodings) {
        Ok(Some(CompressionEncoding::Zlib(None)))
    } else if same_text(name, "zstd") && is_enabled(CompressionEncoding::Zstd(None), encodings) {
        Ok(Some(CompressionEncoding::Zstd(None)))
    } else if same_text(name, "identity") {
        Ok(None)
    } else {
        let mut message = String::new();
        message.append("Content is compressed with `");
        message.append(name);
        message.append("` which isn't supported");
        assert(message@ =~= unsupported_message(name@));
        Err(Status::Unimplemented { message })
    }
}

/// The encoding picked for a peer by the accept list in its headers, out of the configured
/// ones: none where none is configured, or where the list is missing or is not visible ASCII
/// text.
pub open spec fn picked_for(
    headers: HeaderMap,
    config: Option<Vec<CompressionEncoding>>,
) -> Option<CompressionEncoding> {
    match (config, header::first_value(headers, ACCEPT_ENCODING_HEADER@)) {
        (Some(available), Some(list)) => if header::all_visible(list) {
            accepted(list, available@)
        } else {
            None
        },
        _ => None,
    }
}

/// Whether `r` is what the headers of a message say of its encoding: a message without the
/// field is not compressed, and where no encoding is configured the field is not looked at.
pub open spec fn is_read_from(
    headers: HeaderMap,
    config: Option<Vec<CompressionEncoding>>,
    r: Result<Option<CompressionEncoding>, Status>,
) -> bool {
    match (config, header::first_value(headers, ENCODING_HEADER@)) {
        (Some(encodings), Some(value)) => match r {
            Ok(encoding) => {
                &&& header::all_visible(value)
                &&& announced(decode_utf8(value), encodings@) == Some(encoding)
            },
            Err(Status::Unimplemented { message }) => {
                &&& header::all_visible(value)
                &&& announced(decode_utf8(value), encodings@) is None
                &&& message@ == unsupported_message(decode_utf8(value))
            },
            Err(Status::InvalidHeader) => !header::all_visible(value),
        },
        _ => r == Ok::<Option<CompressionEncoding>, Status>(None),
    }
}

/// The number of the level configured for an encoding, or of the default one.
pub open spec fn level_of(encoding: CompressionEncoding) -> u32 {
    match encoding {
        CompressionEncoding::Gzip(Some(config)) => config.level.value,
        CompressionEncoding::Zlib(Some(config)) => config.level.value,
        CompressionEncoding::Zstd(Some(config)) => config.level.value,
        _ => DEFAULT_LEVEL,
    }
}

/// The two field names are fit for a lookup.
proof fn lemma_field_names()
    ensures
        header::is_plain_name(ENCODING_HEADER@),
        header::is_plain_name(ACCEPT_ENCODING_HEADER@),
{
    reveal_strlit("grpc-encoding");
    reveal_strlit("grpc-accept-encoding");
}

impl CompressionEncoding {
    /// The header value that names this encoding.
    pub fn into_header_value(self) -> (value: HeaderValue)
        ensures
            header::octets(value) == encode_utf8(encoding_name(self)),
    {
        proof {
            lemma_names(self);
        }
        match self {
            CompressionEncoding::Gzip(_) => HeaderValue::from_static("gzip"),
            CompressionEncoding::Zlib(_) => HeaderValue::from_static("zlib"),
            CompressionEncoding::Zstd(_) => HeaderValue::from_static("zstd"),
            CompressionEncoding::Identity => HeaderValue::from_static("identity"),
        }
    }

    /// The header value that lists `encodings`, unless this encoding is the identity.
    pub fn into_accept_encoding_header_value(self, encodings: &[CompressionEncoding]) -> (r: Option<
        HeaderValue,
    >)
        ensures
            r is None <==> self is Identity,
            r matches Some(value) ==> header::octets(value) == composed(encodings@),
    {
        if self.is_enabled() {
            Some(compose_encodings(encodings))
        } else {
            None
        }
    }

    /// Picks the encoding to use for a peer by the accept list in its headers, out of
    /// the configured ones. None is picked where none is configured, or where the list
    /// is missing or is not visible ASCII text.
    pub fn from_accept_encoding_header(headers: &HeaderMap, config: &Option<Vec<Self>>) -> (r:
        Option<Self>)
        ensures
            r == picked_for(*headers, *config),
    {
        proof {
            lemma_field_names();
        }
        match config {
            Some(available) => match header::get(headers, ACCEPT_ENCODING_HEADER) {
                Some(value) => match value.to_str() {
                    Ok(list) => pick_accepted(list.as_bytes(), available.as_slice()),
                    Err(_) => None,
                },
                None => None,
            },
            None => None,
        }
    }

    /// Reads the encoding of a message from its headers. A message without the field is
    /// not compressed, and where no encoding is configured the field is not looked at.
    pub fn from_encoding_header(headers: &HeaderMap, config: &Option<Vec<Self>>) -> (r: Result<
        Option<Self>,
        Status,
    >)
        ensures
            is_read_from(*headers, *config, r),
    {
        proof {
            lemma_field_names();
        }
        match config {
            Some(encodings) => match header::get(headers, ENCODING_HEADER) {
                Some(value) => match value.to_str() {
                    Ok(name) => {
                        proof {
                            encode_utf8_decode_utf8(name@);
                        }
                        read_announced(name, encodings.as_slice())
                    },
                    Err(_) => Err(Status::InvalidHeader),
                },
                None => Ok(None),
            },
            None => Ok(None),
        }
    }

    /// The configured level, or the default one where there is no configuration. It
    /// does not tell which compressor the level is for.
    pub fn level(self) -> (level: Level)
        ensures
            level.value == level_of(self),
    {
        match self {
            CompressionEncoding::Gzip(Some(config)) => config.level,
            CompressionEncoding::Zlib(Some(config)) => config.level,
            CompressionEncoding::Zstd(Some(config)) => config.level,
            _ => Level::new(DEFAULT_LEVEL),
        }
    }

    /// Whether the level of this encoding is one that its compressor takes, as [`compress`]
    /// needs it to be.
    pub fn knows_level(&self) -> (r: bool)
        ensures
            r == level_is_known(*self),
    {
        match self {
            CompressionEncoding::Gzip(Some(config)) => config.level.value <= 10,
            CompressionEncoding::Zlib(Some(config)) => config.level.value <= 10,
            _ => true,
        }
    }

    /// Whether this encoding compresses.
    fn is_enabled(&self) -> (r: bool)
        ensures
            r <==> !(self is Identity),
    {
        match self {
            CompressionEncoding::Gzip(_) => true,
            CompressionEncoding::Zlib(_) => true,
            CompressionEncoding::Zstd(_) => true,
            CompressionEncoding::Identity => false,
        }
    }
}

/// A compressor or decompressor failed.
#[derive(Debug)]
pub struct CompressionError {
    pub cause: std::io::Error,
}

/// The room that is reserved for `len` bytes: the next multiple of the step above it.
pub open spec fn reserved_for(len: int) -> int {
    (len / BUFFER_SIZE as int + 1) * BUFFER_SIZE as int
}

/// Computes the room that is reserved for `len` bytes.
fn reserve_size(len: usize) -> (size: usize)
    requires
        reserved_for(len as int) <= usize::MAX,
    ensures
        size == reserved_for(len as int),
{
    (len / BUFFER_SIZE + 1) * BUFFER_SIZE
}

/// The level at which zstd runs: its own default for level 0, else the level's number,
/// read as a signed one.
pub open spec fn zstd_level_of(level: Level) -> int {
    if level.value == 0 {
        3
    } else if level.value <= i32::MAX {
        level.value as int
    } else {
        level.value - 0x1_0000_0000
    }
}

/// Computes the level at which zstd runs.
pub fn zstd_level(level: Level) -> (r: i32)
    ensures
        r == zstd_level_of(level),
{
    let value: u32 = level.level();
    if value == 0 {
        backend::zstd_default_level()
    } else {
        assert(value <= 0x7fff_ffff ==> value as i32 == value) by (bit_vector);
        assert(value > 0x7fff_ffff ==> value as i32 == value - 0x1_0000_0000) by (bit_vector);
        value as i32
    }
}

/// Whether `encoding` compresses and says at which level.
pub open spec fn is_configured(encoding: CompressionEncoding) -> bool {
    match encoding {
        CompressionEncoding::Gzip(config) => config is Some,
        CompressionEncoding::Zlib(config) => config is Some,
        CompressionEncoding::Zstd(config) => config is Some,
        CompressionEncoding::Identity => false,
    }
}

/// Whether the level of `encoding` is one that its compressor takes: gzip and zlib
/// know the levels up to ten, zstd takes every one.
pub open spec fn level_is_known(encoding: CompressionEncoding) -> bool {
    match encoding {
        CompressionEncoding::Gzip(Some(config)) => config.level.value <= 10,
        CompressionEncoding::Zlib(Some(config)) => config.level.value <= 10,
        _ => true,
    }
}

/// Whether `packed` is what compressing `data` yields. Without a configuration it
/// yields nothing.
pub open spec fn packs(encoding: CompressionEncoding, data: Seq<u8>, packed: Seq<u8>) -> bool {
    match encoding {
        CompressionEncoding::Gzip(Some(config)) => backend::gzip_encoded(
            data,
            config.level.value,
        ).0 == Some(packed),
        CompressionEncoding::Zlib(Some(config)) => backend::zlib_encoded(
            data,
            config.level.value,
        ).0 == Some(packed),
        CompressionEncoding::Zstd(Some(config)) => backend::zstd_frames(
            data,
            zstd_level_of(config.level) as i32,
        ).0.contains(packed),
        _ => packed == Seq::<u8>::empty(),
    }
}

/// What decompressing `data` yields, `None` where it fails. The identity yields nothing.
pub open spec fn unpacked(encoding: CompressionEncoding, data: Seq<u8>) -> Option<Seq<u8>> {
    match encoding {
        CompressionEncoding::Gzip(_) => backend::gzip_decoded(data).0,
        CompressionEncoding::Zlib(_) => backend::zlib_decoded(data).0,
        CompressionEncoding::Zstd(_) => backend::zstd_decoded(data).0,
        CompressionEncoding::Identity => Some(Seq::empty()),
    }
}

/// The errors that compressing `data` may fail with: those of the compressor of the
/// encoding on these bytes at its level. Without a configuration there are none.
pub open spec fn pack_errors(encoding: CompressionEncoding, data: Seq<u8>) -> Set<std::io::Error> {
    match encoding {
        CompressionEncoding::Gzip(Some(config)) => backend::gzip_encoded(
            data,
            config.level.value,
        ).1,
        CompressionEncoding::Zlib(Some(config)) => backend::zlib_encoded(
            data,
            config.level.value,
        ).1,
        CompressionEncoding::Zstd(Some(config)) => backend::zstd_frames(
            data,
            zstd_level_of(config.level) as i32,
        ).1,
        _ => Set::empty(),
    }
}

/// The errors that decompressing `data` may fail with: those of the decompressor of the
/// encoding on these bytes. The identity has none.
pub open spec fn unpack_errors(encoding: CompressionEncoding, data: Seq<u8>) -> Set<
    std::io::Error,
> {
    match encoding {
        CompressionEncoding::Gzip(_) => backend::gzip_decoded(data).1,
        CompressionEncoding::Zlib(_) => backend::zlib_decoded(data).1,
        CompressionEncoding::Zstd(_) => backend::zstd_decoded(data).1,
        CompressionEncoding::Identity => Set::empty(),
    }
}

/// Whether compressing `data` into a buffer took it from `before` to `after`: the
/// packed data stand at the end, and where the encoding is configured they unpack to
/// `data` again.
pub open spec fn compressed(
    encoding: CompressionEncoding,
    data: Seq<u8>,
    before: Seq<u8>,
    after: Seq<u8>,
) -> bool {
    &&& before.is_prefix_of(after)
    &&& packs(encoding, data, backend::added(before, after))
    &&& is_configured(encoding) ==> unpacked(encoding, backend::added(before, after)) == Some(data)
}

/// Whether decompressing `data` into a buffer took it from `before` to `after`.
pub open spec fn decompressed(
    encoding: CompressionEncoding,
    data: Seq<u8>,
    before: Seq<u8>,
    after: Seq<u8>,
) -> bool {
    &&& before.is_prefix_of(after)
    &&& unpacked(encoding, data) == Some(backend::added(before, after))
}

/// Whether a buffer that holds `before` has room for what came out, if anything did.
pub open spec fn comes_out(before: Seq<u8>, outcome: Option<Seq<u8>>) -> bool {
    outcome matches Some(bytes) && before.len() + bytes.len() <= backend::max_held()
}

/// Whether there is room to compress `src_len` bytes into a buffer that holds `dest_len`.
pub open spec fn has_room(src_len: int, dest_len: int) -> bool {
    dest_len + reserved_for(src_len) <= backend::max_held()
}

/// Tests for the room that reserving for `src_len` bytes takes in a buffer that holds
/// `dest_len`.
fn test_room(src_len: usize, dest_len: usize) -> (r: bool)
    ensures
        r == has_room(src_len as int, dest_len as int),
{
    match (src_len / BUFFER_SIZE + 1).checked_mul(BUFFER_SIZE) {
        Some(size) => match dest_len.checked_add(size) {
            Some(total) => total <= isize::MAX as usize,
            None => false,
        },
        None => false,
    }
}

/// Whether [`compress`] can be called on these buffers, with an encoding that
/// [knows its level](CompressionEncoding::knows_level).
pub fn can_compress(src_buf: &LinkedBytes, dest_buf: &LinkedBytes) -> (r: bool)
    ensures
        r == has_room(
            buffer::open_bytes(*src_buf).len() as int,
            buffer::open_bytes(*dest_buf).len() as int,
        ),
{
    test_room(buffer::as_slice(src_buf.bytes()).len(), buffer::as_slice(dest_buf.bytes()).len())
}

/// Whether [`decompress`] can be called on these buffers.
pub fn can_decompress(src_buf: &BytesMut, dest_buf: &BytesMut) -> (r: bool)
    ensures
        r == has_room(
            2 * buffer::bytes_held(*src_buf).len() as int,
            buffer::bytes_held(*dest_buf).len() as int,
        ),
{
    match buffer::as_slice(src_buf).len().checked_mul(2) {
        Some(src_len) => test_room(src_len, buffer::as_slice(dest_buf).len()),
        None => false,
    }
}

/// Ends a compression: where the compressor succeeded, the open bytes of `src_buf` are
/// done with and dropped; where it failed, they stay, and its error is returned.
pub fn settle_open(outcome: Result<(), std::io::Error>, src_buf: &mut LinkedBytes) -> (r: Result<
    (),
    CompressionError,
>)
    ensures
        buffer::sealed_chunks(*final(src_buf)) == buffer::sealed_chunks(*old(src_buf)),
        match outcome {
            Ok(_) => r is Ok && buffer::open_bytes(*final(src_buf)) == Seq::<u8>::empty(),
            Err(cause) => r == Err::<(), CompressionError>(CompressionError { cause })
                && buffer::open_bytes(*final(src_buf)) == buffer::open_bytes(*old(src_buf)),
        },
{
    match outcome {
        Ok(_) => {
            let len: usize = buffer::as_slice(src_buf.bytes()).len();
            buffer::advance(src_buf.bytes_mut(), len);
            Ok(())
        },
        Err(cause) => Err(CompressionError { cause }),
    }
}

/// Ends a decompression: where the decompressor succeeded, the bytes of `src_buf` are done
/// with and dropped; where it failed, they stay, and its error is returned.
pub fn settle_held(outcome: Result<u64, std::io::Error>, src_buf: &mut BytesMut) -> (r: Result<
    (),
    CompressionError,
>)
    ensures
        match outcome {
            Ok(_) => r is Ok && buffer::bytes_held(*final(src_buf)) == Seq::<u8>::empty(),
            Err(cause) => r == Err::<(), CompressionError>(CompressionError { cause })
                && buffer::bytes_held(*final(src_buf)) == buffer::bytes_held(*old(src_buf)),
        },
{
    match outcome {
        Ok(_) => {
            let len: usize = buffer::as_slice(src_buf).len();
            buffer::advance(src_buf, len);
            Ok(())
        },
        Err(cause) => Err(CompressionError { cause }),
    }
}

/// Compresses the open bytes of `src_buf` to the end of those of `dest_buf`.
///
/// On success the bytes are gone from `src_buf`. On failure they are still there, part of
/// the output may stand at the end of `dest_buf`, and the cause is the error that the
/// compressor of the encoding ended with. An encoding without a configuration writes
/// nothing.
pub fn compress(
    encoding: CompressionEncoding,
    src_buf: &mut LinkedBytes,
    dest_buf: &mut LinkedBytes,
) -> (r: Result<(), CompressionError>)
    requires
        level_is_known(encoding),
        has_room(
            buffer::open_bytes(*old(src_buf)).len() as int,
            buffer::open_bytes(*old(dest_buf)).len() as int,
        ),
    ensures
        buffer::sealed_chunks(*final(src_buf)) == buffer::sealed_chunks(*old(src_buf)),
        buffer::sealed_chunks(*final(dest_buf)) == buffer::sealed_chunks(*old(dest_buf)),
        r is Ok ==> buffer::open_bytes(*final(src_buf)) == Seq::<u8>::empty(),
        r is Ok ==> compressed(
            encoding,
            buffer::open_bytes(*old(src_buf)),
            buffer::open_bytes(*old(dest_buf)),
            buffer::open_bytes(*final(dest_buf)),
        ),
        r is Err ==> buffer::open_bytes(*final(src_buf)) == buffer::open_bytes(*old(src_buf)),
        r is Err ==> buffer::open_bytes(*old(dest_buf)).is_prefix_of(
            buffer::open_bytes(*final(dest_buf)),
        ),
        r matches Err(error) ==> pack_errors(
            encoding,
            buffer::open_bytes(*old(src_buf)),
        ).contains(error.cause),
        match encoding {
            CompressionEncoding::Gzip(Some(config)) => r is Ok <==> comes_out(
                buffer::open_bytes(*old(dest_buf)),
                backend::gzip_encoded(buffer::open_bytes(*old(src_buf)), config.level.value).0,
            ),
            CompressionEncoding::Zlib(Some(config)) => r is Ok <==> comes_out(
                buffer::open_bytes(*old(dest_buf)),
                backend::zlib_encoded(buffer::open_bytes(*old(src_buf)), config.level.value).0,
            ),
            CompressionEncoding::Zstd(Some(_)) => true,
            _ => r is Ok,
        },
{
    let src = buffer::as_slice(src_buf.bytes());
    dest_buf.reserve(reserve_size(src.len()));
    let outcome = match encoding {
        CompressionEncoding::Gzip(Some(config)) => backend::gzip_encode(
            src,
            config.level.level(),
            dest_buf,
        ),
        CompressionEncoding::Zlib(Some(config)) => backend::zlib_encode(
            src,
            config.level.level(),
            dest_buf,
        ),
        CompressionEncoding::Zstd(Some(config)) => backend::zstd_encode(
            src,
            zstd_level(config.level),
            dest_buf,
        ),
        _ => {
            assert(backend::added(
                buffer::open_bytes(*old(dest_buf)),
                buffer::open_bytes(*dest_buf),
            ) =~= Seq::empty());
            Ok(())
        },
    };
    settle_open(outcome, src_buf)
}

/// Decompresses `src_buf` to the end of `dest_buf`.
///
/// On success the bytes are gone from `src_buf`. On failure they are still there, part of
/// the output may stand at the end of `dest_buf`, and the cause is the error that the
/// decompressor of the encoding ended with. The configuration of the encoding plays no part,
/// and the identity writes nothing.
pub fn decompress(
    encoding: CompressionEncoding,
    src_buf: &mut BytesMut,
    dest_buf: &mut BytesMut,
) -> (r: Result<(), CompressionError>)
    requires
        has_room(
            2 * buffer::bytes_held(*old(src_buf)).len() as int,
            buffer::bytes_held(*old(dest_buf)).len() as int,
        ),
    ensures
        r is Ok ==> buffer::bytes_held(*final(src_buf)) == Seq::<u8>::empty(),
        r is Ok ==> decompressed(
            encoding,
            buffer::bytes_held(*old(src_buf)),
            buffer::bytes_held(*old(dest_buf)),
            buffer::bytes_held(*final(dest_buf)),
        ),
        r is Err ==> buffer::bytes_held(*final(src_buf)) == buffer::bytes_held(*old(src_buf)),
        r is Err ==> buffer::bytes_held(*old(dest_buf)).is_prefix_of(
            buffer::bytes_held(*final(dest_buf)),
        ),
        r matches Err(error) ==> unpack_errors(
            encoding,
            buffer::bytes_held(*old(src_buf)),
        ).contains(error.cause),
        !(encoding is Zstd) ==> (r is Ok <==> comes_out(
            buffer::bytes_held(*old(dest_buf)),
            unpacked(encoding, buffer::bytes_held(*old(src_buf))),
        )),
{
    let src = buffer::as_slice(src_buf);
    dest_buf.reserve(reserve_size(src.len() * 2));
    let outcome = match encoding {
        CompressionEncoding::Gzip(_) => backend::gzip_decode(src, dest_buf),
        CompressionEncoding::Zlib(_) => backend::zlib_decode(src, dest_buf),
        CompressionEncoding::Zstd(_) => backend::zstd_decode(src, dest_buf),
        CompressionEncoding::Identity => {
            assert(backend::added(
                buffer::bytes_held(*old(dest_buf)),
                buffer::bytes_held(*dest_buf),
            ) =~= Seq::empty());
            Ok(0)
        },
    };
    settle_held(outcome, src_buf)
}

} // verus!
