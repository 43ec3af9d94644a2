//! The compact `.abl` form a logo is stored in: four magic bytes, then the
//! logo's fields in order as postcard writes them, each coefficient as the
//! four bytes of its single-precision value, least significant first.

use vstd::prelude::*;
use vstd::slice::slice_subrange;
use crate::analyze::logo::model::canonical_logos_are_physical;
use crate::analyze::logo::model::LogoData;
use crate::analyze::logo::model::LogoError;
use crate::analyze::logo::model::LogoView;
use crate::analyze::logo::model::Rect;
use crate::text::text_of;

verus! {

/// The four bytes of one coefficient.
pub type Quad = (u8, u8, u8, u8);

/// The fields of a logo as the stored form holds them: name, channel, source
/// size, rectangle, slopes, intercepts, and the frames behind the fit.
pub type Record = (
    String,
    Option<String>,
    u32,
    u32,
    (u32, u32, u32, u32),
    Vec<Quad>,
    Vec<Quad>,
    u32,
);

/// A record with its text and lists read as sequences.
pub type RecordView = (
    Seq<char>,
    Option<Seq<char>>,
    u32,
    u32,
    (u32, u32, u32, u32),
    Seq<Quad>,
    Seq<Quad>,
    u32,
);

/// What a record holds.
pub open spec fn record_view(record: Record) -> RecordView {
    (
        record.0@,
        text_of(record.1),
        record.2,
        record.3,
        record.4,
        record.5@,
        record.6@,
        record.7,
    )
}

/// What a record that may be missing holds.
pub open spec fn plain_record(record: Option<Record>) -> Option<RecordView> {
    match record {
        Some(record) => Some(record_view(record)),
        None => None,
    }
}

/// The bytes postcard writes for a record.
pub uninterp spec fn encoded_record(record: RecordView) -> Seq<u8>;

/// The record postcard reads from bytes, where they hold one.
pub uninterp spec fn decoded_record(bytes: Seq<u8>) -> Option<RecordView>;

/// `postcard::to_stdvec` on a record. Claimed: it always succeeds, since it
/// writes to a growing vector and every length is known in advance; its bytes
/// are a function of what the record holds; and reading them back gives the
/// record.
#[verifier::external_body]
fn encode_record(record: &Record) -> (written: Option<Vec<u8>>)
    ensures
        written is Some,
        written->Some_0@ == encoded_record(record_view(*record)),
        decoded_record(written->Some_0@) == Some(record_view(*record)),
{
    postcard::to_stdvec(record).ok()
}

/// `postcard::from_bytes` for a record. Claimed: whether it succeeds, and what
/// it then reads, is a function of the bytes.
#[verifier::external_body]
fn decode_record(bytes: &[u8]) -> (read: Option<Record>)
    ensures
        plain_record(read) == decoded_record(bytes@),
{
    postcard::from_bytes(bytes).ok()
}

/// The bytes of one coefficient, least significant first.
pub open spec fn quad_of(bits: u32) -> Quad {
    (
        (bits as int % 256) as u8,
        (bits as int / 256 % 256) as u8,
        (bits as int / 0x1_0000 % 256) as u8,
        (bits as int / 0x100_0000) as u8,
    )
}

/// The coefficient four bytes make.
pub open spec fn bits_of(quad: Quad) -> u32 {
    (quad.0 + quad.1 * 256 + quad.2 * 0x1_0000 + quad.3 * 0x100_0000) as u32
}

/// Splitting a coefficient into bytes loses nothing.
pub proof fn quads_are_exact(bits: u32)
    ensures
        bits_of(quad_of(bits)) == bits,
{
    let n = bits as int;
    assert(n == n % 256 + 256 * (n / 256));
    assert(n / 256 == n / 256 % 256 + 256 * (n / 0x1_0000));
    assert(n / 0x1_0000 == n / 0x1_0000 % 256 + 256 * (n / 0x100_0000));
}

fn to_quads(coefficients: &[u32]) -> (quads: Vec<Quad>)
    ensures
        quads@ == coefficients@.map_values(|bits: u32| quad_of(bits)),
{
    let mut quads: Vec<Quad> = Vec::new();
    for i in 0..coefficients.len()
        invariant
            quads@ =~= coefficients@.map_values(|bits: u32| quad_of(bits)).take(i as int),
    {
        let bits: u32 = coefficients[i];
        quads.push(
            (
                (bits % 256) as u8,
                (bits / 256 % 256) as u8,
                (bits / 0x1_0000 % 256) as u8,
                (bits / 0x100_0000) as u8,
            ),
        );
    }
    assert(quads@ =~= coefficients@.map_values(|bits: u32| quad_of(bits)));
    quads
}

fn from_quads(quads: &[Quad]) -> (coefficients: Vec<u32>)
    ensures
        coefficients@ == quads@.map_values(|quad: Quad| bits_of(quad)),
{
    let mut coefficients: Vec<u32> = Vec::new();
    for i in 0..quads.len()
        invariant
            coefficients@ =~= quads@.map_values(|quad: Quad| bits_of(quad)).take(i as int),
    {
        let quad: Quad = quads[i];
        let bits: u32 = quad.0 as u32 + quad.1 as u32 * 256 + quad.2 as u32 * 0x1_0000 + quad.3 as u32
            * 0x100_0000;
        coefficients.push(bits);
    }
    assert(coefficients@ =~= quads@.map_values(|quad: Quad| bits_of(quad)));
    coefficients
}

/// The magic bytes at the head of an `.abl` file: `ABL1`.
pub open spec fn magic() -> Seq<u8> {
    seq![0x41u8, 0x42u8, 0x4cu8, 0x31u8]
}

impl LogoView {
    /// The record a logo is stored as.
    pub open spec fn record(self) -> RecordView {
        (
            self.name,
            self.channel_id,
            self.source_width,
            self.source_height,
            (self.rect.x, self.rect.y, self.rect.width, self.rect.height),
            self.a.map_values(|bits: u32| quad_of(bits)),
            self.b.map_values(|bits: u32| quad_of(bits)),
            self.frames_used,
        )
    }

    /// The bytes of a stored logo: the magic bytes, and then bytes that
    /// postcard reads the logo's record from.
    pub open spec fn is_stored_as(self, bytes: Seq<u8>) -> bool {
        &&& bytes == magic() + encoded_record(self.record())
        &&& decoded_record(encoded_record(self.record())) == Some(self.record())
    }
}

/// The logo a record describes.
pub open spec fn logo_in(record: RecordView) -> LogoView {
    LogoView {
        name: record.0,
        channel_id: record.1,
        source_width: record.2,
        source_height: record.3,
        rect: Rect { x: record.4.0, y: record.4.1, width: record.4.2, height: record.4.3 },
        a: record.5.map_values(|quad: Quad| bits_of(quad)),
        b: record.6.map_values(|quad: Quad| bits_of(quad)),
        frames_used: record.7,
    }
}

/// What reading bytes as a logo comes to.
pub open spec fn read_logo(bytes: Seq<u8>) -> Result<LogoView, LogoError> {
    if bytes.len() < 4 || bytes.take(4) != magic() {
        Err(LogoError::LogoFormat)
    } else {
        logo_from_record(decoded_record(bytes.skip(4)))
    }
}

/// What a decoded record comes to as a logo: refused unless its geometry is
/// consistent, and scrubbed of anything unphysical.
pub open spec fn logo_from_record(record: Option<RecordView>) -> Result<LogoView, LogoError> {
    match record {
        None => Err(LogoError::LogoDecode),
        Some(record) => {
            if logo_in(record).consistent() {
                Ok(logo_in(record).canonical())
            } else {
                Err(LogoError::LogoGeometry)
            }
        },
    }
}

/// A result with its logo read as what it is.
pub open spec fn outcome(result: Result<LogoData, LogoError>) -> Result<LogoView, LogoError> {
    match result {
        Ok(logo) => Ok(logo@),
        Err(error) => Err(error),
    }
}

/// Turn a decoded record into a logo.
///
/// A logo file may have been produced by another version, copied from a logo
/// pack, or simply be corrupt. Every downstream stage indexes by the rectangle
/// and does arithmetic on the coefficients, so both are checked here rather
/// than trusted. Coefficients that are not finite would make nonsense of every
/// frame score and silently disable detection for the whole recording.
pub fn accept_record(record: Option<Record>) -> (result: Result<LogoData, LogoError>)
    ensures
        outcome(result) == logo_from_record(plain_record(record)),
{
    let record = match record {
        None => {
            return Err(LogoError::LogoDecode);
        },
        Some(record) => record,
    };
    let ghost plain = record_view(record);
    let (name, channel_id, source_width, source_height, corners, a, b, frames_used) = record;
    let rect = Rect { x: corners.0, y: corners.1, width: corners.2, height: corners.3 };
    let mut logo = LogoData {
        name,
        channel_id,
        source_width,
        source_height,
        rect,
        a: from_quads(&a),
        b: from_quads(&b),
        frames_used,
    };
    assert(logo@ =~= logo_in(plain));
    let area: u64 = rect.area();
    if !rect.is_valid() || !rect.fits_within(source_width, source_height) || logo.a.len() as u64
        != area || logo.b.len() as u64 != area {
        return Err(LogoError::LogoGeometry);
    }
    logo.canonicalise();
    Ok(logo)
}

impl LogoData {
    /// Serialise to the compact `.abl` form. Nothing a logo can hold is
    /// refused.
    pub fn to_bytes(&self) -> (result: Result<Vec<u8>, LogoError>)
        ensures
            result matches Ok(bytes) && self@.is_stored_as(bytes@),
    {
        let record: Record = (
            self.name.clone(),
            self.channel_id.clone(),
            self.source_width,
            self.source_height,
            (self.rect.x, self.rect.y, self.rect.width, self.rect.height),
            to_quads(&self.a),
            to_quads(&self.b),
            self.frames_used,
        );
        assert(record_view(record) == self@.record());
        match encode_record(&record) {
            None => Err(LogoError::LogoEncode),
            Some(body) => {
                let mut bytes: Vec<u8> = vec![0x41u8, 0x42u8, 0x4cu8, 0x31u8];
                assert(bytes@ =~= magic());
                bytes.extend_from_slice(&body);
                assert(bytes@ =~= magic() + body@);
                Ok(bytes)
            },
        }
    }

    /// Read the `.abl` form.
    ///
    /// Fails with [`LogoError::LogoFormat`] if the magic bytes are wrong,
    /// [`LogoError::LogoDecode`] if the body is malformed, and
    /// [`LogoError::LogoGeometry`] if the coefficients do not match the
    /// rectangle or the rectangle does not fit.
    pub fn from_bytes(bytes: &[u8]) -> (result: Result<LogoData, LogoError>)
        ensures
            outcome(result) == read_logo(bytes@),
    {
        if bytes.len() < 4 || bytes[0] != 0x41 || bytes[1] != 0x42 || bytes[2] != 0x4c || bytes[3]
            != 0x31 {
            assert(bytes@.len() >= 4 ==> bytes@.take(4)[0] != 0x41 || bytes@.take(4)[1] != 0x42
                || bytes@.take(4)[2] != 0x4c || bytes@.take(4)[3] != 0x31);
            return Err(LogoError::LogoFormat);
        }
        assert(bytes@.take(4) =~= magic());
        let body = slice_subrange(bytes, 4, bytes.len());
        assert(body@ =~= bytes@.skip(4));
        accept_record(decode_record(body))
    }
}

/// A logo survives being stored: reading back what was written gives the same
/// logo, with anything unphysical scrubbed, and so the same logo exactly when
/// there was nothing to scrub.
pub proof fn logos_survive_storage(logo: LogoView, bytes: Seq<u8>)
    requires
        logo.is_stored_as(bytes),
        logo.consistent(),
    ensures
        read_logo(bytes) == Ok::<LogoView, LogoError>(logo.canonical()),
        logo.physical() ==> read_logo(bytes) == Ok::<LogoView, LogoError>(logo),
{
    stored_record_is_the_logo(logo, bytes);
    canonical_logos_are_physical(logo);
}

/// A logo whose geometry does not hold together is refused when read back.
pub proof fn inconsistent_logos_are_refused(logo: LogoView, bytes: Seq<u8>)
    requires
        logo.is_stored_as(bytes),
        !logo.consistent(),
    ensures
        read_logo(bytes) == Err::<LogoView, LogoError>(LogoError::LogoGeometry),
{
    stored_record_is_the_logo(logo, bytes);
}

/// Whatever was read, what comes out is consistent and physical.
pub proof fn read_logos_are_sound(bytes: Seq<u8>)
    ensures
        read_logo(bytes) matches Ok(logo) ==> logo.consistent() && logo.physical(),
{
    if read_logo(bytes) is Ok {
        let record = decoded_record(bytes.skip(4))->Some_0;
        canonical_logos_are_physical(logo_in(record));
    }
}

proof fn stored_record_is_the_logo(logo: LogoView, bytes: Seq<u8>)
    requires
        logo.is_stored_as(bytes),
    ensures
        bytes.len() >= 4,
        bytes.take(4) == magic(),
        decoded_record(bytes.skip(4)) == Some(logo.record()),
        logo_in(logo.record()) == logo,
{
    assert(bytes.take(4) =~= magic());
    assert(bytes.skip(4) =~= encoded_record(logo.record()));
    assert forall|bits: u32| bits_of(#[trigger] quad_of(bits)) == bits by {
        quads_are_exact(bits);
    }
    assert(logo_in(logo.record()).a =~= logo.a);
    assert(logo_in(logo.record()).b =~= logo.b);
    assert(logo_in(logo.record()) =~= logo);
}

/// A coefficient is stored with its low byte first.
pub proof fn coefficients_are_stored_low_byte_first(bits: u32, quad: Quad)
    ensures
        ({
            let stored = quad_of(bits);
            bits == stored.0 + 0x100 * stored.1 + 0x1_0000 * stored.2 + 0x100_0000 * stored.3
        }),
        bits_of(quad) == quad.0 + 0x100 * quad.1 + 0x1_0000 * quad.2 + 0x100_0000 * quad.3,
{
    quads_are_exact(bits);
}

/// A stored logo says what it is in its first four letters, and whatever says
/// anything else there is not read as one.
pub proof fn stored_logos_say_what_they_are(logo: LogoView, bytes: Seq<u8>)
    ensures
        logo.is_stored_as(bytes) ==> bytes.len() >= 4 && bytes[0] == 0x41 && bytes[1] == 0x42
            && bytes[2] == 0x4c && bytes[3] == 0x31,
        bytes.len() < 4 ==> read_logo(bytes) == Err::<LogoView, LogoError>(LogoError::LogoFormat),
        bytes.len() >= 4 && !(bytes[0] == 0x41 && bytes[1] == 0x42 && bytes[2] == 0x4c && bytes[3]
            == 0x31) ==> read_logo(bytes) == Err::<LogoView, LogoError>(LogoError::LogoFormat),
{
    if bytes.len() >= 4 {
        assert(bytes.take(4)[0] == bytes[0] && bytes.take(4)[1] == bytes[1]);
        assert(bytes.take(4)[2] == bytes[2] && bytes.take(4)[3] == bytes[3]);
    }
}

/// A record holds each thing in its place.
pub proof fn records_hold_each_thing_in_its_place(logo: LogoView)
    ensures
        logo.record().0 == logo.name,
        logo.record().1 == logo.channel_id,
        logo.record().2 == logo.source_width,
        logo.record().3 == logo.source_height,
        logo.record().4 == (logo.rect.x, logo.rect.y, logo.rect.width, logo.rect.height),
        logo.record().5.len() == logo.a.len(),
        logo.record().6.len() == logo.b.len(),
        logo.record().7 == logo.frames_used,
{
}

} // verus!
