//! Upload of firmware for a peer, and the progress of its delivery.
//!
//! - `POST /api/v1/ota/:peer_id`: a form with the fields `firmware` and `version`
//! - `GET /api/v1/ota/:peer_id/status`

use vstd::prelude::*;
use vstd::string::*;

use crate::security::error::joined;
use crate::text;
use crate::text::{clone_optional, text_eq};
use crate::transport::lite::NodeId;
use crate::transport::lite_ota;
use crate::transport::lite_ota::{FirmwareImage, OtaSender, OtaStatusInfo, PendingOffer, SenderView};

verus! {

/// Largest firmware in bytes (the size of the partition for updates).
pub const MAX_FIRMWARE_SIZE: usize = 0x300000;

/// Response for a successful upload.
#[derive(Debug)]
pub struct OtaUploadResponse {
    pub session_id: u16,
    pub peer_id: String,
    pub firmware_size: usize,
    pub total_chunks: u16,
    pub version: String,
}

/// An [`OtaUploadResponse`] in terms of sequences.
#[verifier::ext_equal]
pub struct UploadResponseView {
    pub session_id: u16,
    pub peer_id: Seq<char>,
    pub firmware_size: usize,
    pub total_chunks: u16,
    pub version: Seq<char>,
}

impl View for OtaUploadResponse {
    type V = UploadResponseView;

    open spec fn view(&self) -> UploadResponseView {
        UploadResponseView {
            session_id: self.session_id,
            peer_id: self.peer_id@,
            firmware_size: self.firmware_size,
            total_chunks: self.total_chunks,
            version: self.version@,
        }
    }
}

/// An answer that reports an error: HTTP status and text.
#[derive(Debug)]
pub struct ApiError {
    pub status: u16,
    pub error: String,
}

/// An [`ApiError`] in terms of sequences.
#[verifier::ext_equal]
pub struct ApiErrorView {
    pub status: u16,
    pub error: Seq<char>,
}

impl View for ApiError {
    type V = ApiErrorView;

    open spec fn view(&self) -> ApiErrorView {
        ApiErrorView { status: self.status, error: self.error@ }
    }
}

/// What a field of the form is for.
#[derive(Debug, Clone, Copy, PartialEq, Eq, Structural)]
pub enum FieldKind {
    Firmware,
    Version,
    Unknown,
}

/// What the field with a name is for.
pub open spec fn field_kind(name: Seq<char>) -> FieldKind {
    if name == "firmware"@ {
        FieldKind::Firmware
    } else if name == "version"@ {
        FieldKind::Version
    } else {
        FieldKind::Unknown
    }
}

/// The fields of the form that were read so far; of two fields with one name the later
/// counts.
pub struct UploadForm {
    firmware: Option<Vec<u8>>,
    version: Option<String>,
}

/// An [`UploadForm`] in terms of sequences.
#[verifier::ext_equal]
pub struct FormView {
    pub firmware: Option<Seq<u8>>,
    pub version: Option<Seq<char>>,
}

impl View for UploadForm {
    type V = FormView;

    closed spec fn view(&self) -> FormView {
        FormView {
            firmware: match self.firmware {
                Some(f) => Some(f@),
                None => None,
            },
            version: text::optional_text(self.version),
        }
    }
}

/// Firmware that was uploaded, with its version.
pub struct Upload {
    pub image: FirmwareImage,
    pub version: String,
}

impl FormView {
    /// The version, or what stands for it where none was given.
    pub open spec fn version_or_default(self) -> Seq<char> {
        match self.version {
            Some(v) => v,
            None => "0.0.0"@,
        }
    }

    /// Why the form is refused, if it is.
    pub open spec fn refusal(self) -> Option<ApiErrorView> {
        match self.firmware {
            None => Some(ApiErrorView { status: 400, error: "missing 'firmware' field"@ }),
            Some(f) => if f.len() == 0 {
                Some(ApiErrorView { status: 400, error: "firmware file is empty"@ })
            } else if f.len() > 0x300000 {
                Some(ApiErrorView { status: 400, error: "firmware too large (max 3MB)"@ })
            } else {
                None
            },
        }
    }
}

fn bad_request(error: &str) -> (r: ApiError)
    ensures
        r@ == (ApiErrorView { status: 400, error: error@ }),
{
    ApiError { status: 400, error: error.to_owned() }
}

impl UploadForm {
    /// A form of which nothing was read.
    pub fn new() -> (r: Self)
        ensures
            r@ == (FormView { firmware: None, version: None }),
    {
        UploadForm { firmware: None, version: None }
    }

    /// What the field with a name is for.
    pub fn kind_of(name: &str) -> (r: FieldKind)
        ensures
            r == field_kind(name@),
    {
        if text_eq(name, "firmware") {
            FieldKind::Firmware
        } else if text_eq(name, "version") {
            FieldKind::Version
        } else {
            FieldKind::Unknown
        }
    }

    /// Takes in the field with the firmware; `None` where it could not be read.
    pub fn set_firmware(&mut self, data: Option<Vec<u8>>)
        ensures
            final(self)@ == (FormView {
                firmware: match data {
                    Some(d) => Some(d@),
                    None => None,
                },
                ..old(self)@
            }),
    {
        self.firmware = data;
    }

    /// Takes in the field with the version; `None` where it could not be read.
    pub fn set_version(&mut self, version: Option<String>)
        ensures
            final(self)@ == (FormView { version: text::optional_text(version), ..old(self)@ }),
    {
        self.version = version;
    }

    /// The firmware in the form, or why it is refused.
    pub fn check(self) -> (r: Result<Upload, ApiError>)
        ensures
            match r {
                Ok(upload) => self@.refusal() is None && upload.version@ == self@.version_or_default()
                    && upload.image@ == lite_ota::image_of(self@.firmware->Some_0, self@.version_or_default()),
                Err(e) => self@.refusal() == Some(e@),
            },
    {
        let data = match self.firmware {
            Some(data) => data,
            None => return Err(bad_request("missing 'firmware' field")),
        };
        let version = match self.version {
            Some(v) => v,
            None => "0.0.0".to_owned(),
        };
        if data.len() == 0 {
            return Err(bad_request("firmware file is empty"));
        }
        if data.len() > MAX_FIRMWARE_SIZE {
            return Err(bad_request("firmware too large (max 3MB)"));
        }
        let image = FirmwareImage::new(data, version.as_str());
        Ok(Upload { image, version })
    }
}

/// An upload whose offer is to be sent.
pub struct PendingUpload {
    pub offer: PendingOffer,
    pub version: String,
}

/// Begins the delivery of the firmware in a form: the offer in the result is to be sent
/// to the peer. A form that is refused takes no session ID.
pub fn upload_firmware(sender: &mut OtaSender, form: UploadForm) -> (r: Result<PendingUpload, ApiError>)
    ensures
        match r {
            Ok(pending) => form@.refusal() is None && pending.version@ == form@.version_or_default() && pending.offer@
                == old(sender)@.next_offer(lite_ota::image_of(form@.firmware->Some_0, form@.version_or_default()))
                && final(sender)@ == old(sender)@.id_taken(),
            Err(e) => form@.refusal() == Some(e@) && final(sender)@ == old(sender)@,
        },
{
    match form.check() {
        Ok(upload) => {
            let offer = sender.prepare_offer(upload.image);
            Ok(PendingUpload { offer, version: upload.version })
        },
        Err(e) => Err(e),
    }
}

/// Ends an upload once its offer was sent, or could not be sent: the session begins, and
/// the answer describes it.
pub fn finish_upload(
    sender: &mut OtaSender,
    peer_id: String,
    pending: PendingUpload,
    sent: Result<(), String>,
    now: u64,
) -> (r: Result<OtaUploadResponse, ApiError>)
    ensures
        match sent {
            Ok(_) => r is Ok && r->Ok_0@ == (UploadResponseView {
                session_id: pending.offer.session_id,
                peer_id: peer_id@,
                firmware_size: pending.offer.firmware.data@.len() as usize,
                total_chunks: pending.offer.firmware.total_chunks,
                version: pending.version@,
            }) && final(sender)@ == old(sender)@.with(peer_id@, pending.offer@.session(peer_id@, now)),
            Err(e) => r is Err && r->Err_0@ == (ApiErrorView {
                status: 500,
                error: "failed to start OTA: "@ + ("Failed to send OTA offer: "@ + e@),
            }) && final(sender)@ == old(sender)@,
        },
{
    let firmware_size: usize = pending.offer.firmware.data.len();
    let total_chunks: u16 = pending.offer.firmware.total_chunks;
    let node_id = NodeId::new(peer_id.clone());
    match sender.offer_to_peer(&node_id, pending.offer, sent, now) {
        Ok(session_id) => Ok(
            OtaUploadResponse { session_id, peer_id, firmware_size, total_chunks, version: pending.version },
        ),
        Err(e) => Err(ApiError { status: 500, error: joined("failed to start OTA: ", e.as_str()) }),
    }
}

/// The progress of the delivery to a peer.
pub fn ota_status(sender: &OtaSender, peer_id: &str, now: u64) -> (r: Result<OtaStatusInfo, ApiError>)
    ensures
        match r {
            Ok(info) => sender@.sessions.contains_key(peer_id@) && sender@.sessions[peer_id@].described_by(info, now),
            Err(e) => !sender@.sessions.contains_key(peer_id@) && e@ == (ApiErrorView {
                status: 404,
                error: "no OTA session for peer: "@ + peer_id@,
            }),
        },
{
    match sender.get_status(peer_id, now) {
        Some(info) => Ok(info),
        None => Err(ApiError { status: 404, error: joined("no OTA session for peer: ", peer_id) }),
    }
}

/// Firmware that is accepted is delivered whole: its chunks can be counted in 16 bits.
pub proof fn law_accepted_firmware_is_whole(form: FormView)
    requires
        form.refusal() is None,
    ensures
        ({
            let data = form.firmware->Some_0;
            let image = lite_ota::image_of(data, form.version_or_default());
            &&& image.total_chunks > 0
            &&& image.total_chunks == lite_ota::chunks_for(data.len())
            &&& lite_ota::first_chunks(image, image.total_chunks as nat) == data
        }),
{
    let data = form.firmware->Some_0;
    lite_ota::law_chunks_make_firmware(data, form.version_or_default());
}

} // verus!
