//! Answering cloud transfers in the process: what has to be proved of a request first.
use crate::achievement_adapters::terminated_at;
use crate::code_shape::Arch;
use crate::text::utf8_text;
use vstd::prelude::*;
use vstd::slice::slice_subrange;
use vstd::string::*;
use vstd::utf8::{decode_utf8, valid_utf8};

verus! {

/// The largest transfer that is answered.
pub const MAX_LOCAL_TRANSFER_BYTES: usize = 536870912;

/// How much of a text is read.
pub const MAX_TEXT_BYTES: usize = 2048;

/// Where the fields of a request and its job lie.
#[derive(Clone, Copy, Debug, PartialEq, Eq, Structural)]
pub struct HttpLayout {
    pub request_host: usize,
    pub request_path: usize,
    pub request_body_data: usize,
    pub request_body_size: usize,
    pub request_download_handler: usize,
    pub job_complete: usize,
    pub job_success: usize,
    pub job_request: usize,
    pub job_response: usize,
    pub response_status: usize,
    pub download_body_vtable: usize,
    pub word: usize,
}

pub open spec fn layout_of(arch: Arch) -> HttpLayout {
    match arch {
        Arch::X64 => HttpLayout {
            request_host: 0x80,
            request_path: 0x88,
            request_body_data: 0x98,
            request_body_size: 0xac,
            request_download_handler: 0xe0,
            job_complete: 0x22,
            job_success: 0x23,
            job_request: 0x68,
            job_response: 0x70,
            response_status: 0x0c,
            download_body_vtable: 0x38,
            word: 8,
        },
        Arch::X86 => HttpLayout {
            request_host: 0x58,
            request_path: 0x5c,
            request_body_data: 0x64,
            request_body_size: 0x74,
            request_download_handler: 0x94,
            job_complete: 0x16,
            job_success: 0x17,
            job_request: 0x50,
            job_response: 0x54,
            response_status: 0x08,
            download_body_vtable: 0x1c,
            word: 4,
        },
    }
}

pub fn http_layout(arch: Arch) -> (layout: HttpLayout)
    ensures
        layout == layout_of(arch),
{
    match arch {
        Arch::X64 => HttpLayout {
            request_host: 0x80,
            request_path: 0x88,
            request_body_data: 0x98,
            request_body_size: 0xac,
            request_download_handler: 0xe0,
            job_complete: 0x22,
            job_success: 0x23,
            job_request: 0x68,
            job_response: 0x70,
            response_status: 0x0c,
            download_body_vtable: 0x38,
            word: 8,
        },
        Arch::X86 => HttpLayout {
            request_host: 0x58,
            request_path: 0x5c,
            request_body_data: 0x64,
            request_body_size: 0x74,
            request_download_handler: 0x94,
            job_complete: 0x16,
            job_success: 0x17,
            job_request: 0x50,
            job_response: 0x54,
            response_status: 0x08,
            download_body_vtable: 0x1c,
            word: 4,
        },
    }
}

/// The texts of a request lie next to each other, so that one read gets both.
pub proof fn law_identity_is_one_read(arch: Arch)
    ensures
        layout_of(arch).request_path == layout_of(arch).request_host + layout_of(arch).word,
{
}

/// Where a request's texts are pointed to from; none without a request.
pub fn probe_request_identity(request: usize, layout: &HttpLayout) -> (address: Option<usize>)
    ensures
        address is Some <==> request != 0 && request + layout.request_host <= usize::MAX,
        address is Some ==> address->0 == request + layout.request_host,
{
    if request == 0 {
        return None;
    }
    request.checked_add(layout.request_host)
}

/// The part of a memory image that is looked at for a text.
pub open spec fn text_window(memory: Seq<u8>) -> Seq<u8> {
    if memory.len() <= MAX_TEXT_BYTES {
        memory
    } else {
        memory.take(MAX_TEXT_BYTES as int)
    }
}

/// The text at an address: the empty one without an address, and otherwise valid UTF-8
/// up to a terminator.
pub open spec fn text_at(address: usize, memory: Option<Seq<u8>>) -> Option<Seq<char>> {
    if address == 0 {
        Some(Seq::empty())
    } else {
        match memory {
            Some(memory) => match terminated_at(text_window(memory), 0) {
                Some(end) => if valid_utf8(text_window(memory).take(end)) {
                    Some(decode_utf8(text_window(memory).take(end)))
                } else {
                    None
                },
                None => None,
            },
            None => None,
        }
    }
}

/// The bytes of an image that may be absent.
pub open spec fn image_of(memory: Option<&[u8]>) -> Option<Seq<u8>> {
    match memory {
        Some(memory) => Some(memory@),
        None => None,
    }
}

/// Reads a text out of the image of the memory at its address.
pub fn read_string(address: usize, memory: Option<&[u8]>) -> (text: Option<String>)
    ensures
        text is Some <==> text_at(address, image_of(memory)) is Some,
        text is Some ==> text->0@ == text_at(address, image_of(memory))->0,
{
    if address == 0 {
        return Some(String::new());
    }
    let image: &[u8] = match memory {
        Some(image) => image,
        None => {
            return None;
        },
    };
    let size: usize = if image.len() <= MAX_TEXT_BYTES {
        image.len()
    } else {
        MAX_TEXT_BYTES
    };
    let window: &[u8] = slice_subrange(image, 0, size);
    assert(window@ =~= text_window(image@));
    let mut end: usize = 0;
    while end < window.len()
        invariant
            end <= window@.len(),
            address != 0,
            memory is Some,
            memory->0@ == image@,
            window@ == text_window(image@),
            terminated_at(window@, 0) == terminated_at(window@, end as int),
        decreases window@.len() - end,
    {
        if window[end] == 0 {
            let text: &[u8] = slice_subrange(window, 0, end);
            assert(text@ =~= window@.take(end as int));
            return match utf8_text(text) {
                Ok(text) => Some(text),
                Err(_) => None,
            };
        }
        end = end + 1;
    }
    None
}

/// What a transfer was issued for.
#[derive(Clone, Copy, Debug, PartialEq, Eq, Structural)]
pub enum TransferContract {
    Upload { transfer_size: u64 },
    Download,
}

/// What is read or called for an admitted transfer.
#[derive(Clone, Copy, Debug, PartialEq, Eq, Structural)]
pub enum TransferBody {
    /// So many bytes are read at the address.
    Upload { address: usize, size: usize },
    /// The handler gets the body.
    Download { handler: usize },
}

/// Whether a request agrees with the transfer that it names.
pub open spec fn body_of(
    contract: TransferContract,
    body_data: usize,
    body_size: i32,
    download_handler: Option<usize>,
) -> Option<TransferBody> {
    match contract {
        TransferContract::Upload { transfer_size } => if transfer_size <= MAX_LOCAL_TRANSFER_BYTES
            && body_size == transfer_size && (transfer_size != 0 ==> body_data != 0) {
            Some(TransferBody::Upload { address: body_data, size: transfer_size as usize })
        } else {
            None
        },
        TransferContract::Download => match download_handler {
            Some(handler) => if body_size == 0 && handler != 0 {
                Some(TransferBody::Download { handler })
            } else {
                None
            },
            None => None,
        },
    }
}

/// Admits a request whose body agrees with the transfer that it names.
pub fn admit_local_transfer(
    contract: TransferContract,
    body_data: usize,
    body_size: i32,
    download_handler: Option<usize>,
) -> (body: Option<TransferBody>)
    ensures
        body == body_of(contract, body_data, body_size, download_handler),
{
    match contract {
        TransferContract::Upload { transfer_size } => {
            if transfer_size > MAX_LOCAL_TRANSFER_BYTES as u64 || body_size < 0 || body_size as u64
                != transfer_size || (transfer_size != 0 && body_data == 0) {
                return None;
            }
            Some(TransferBody::Upload { address: body_data, size: transfer_size as usize })
        },
        TransferContract::Download => match download_handler {
            Some(handler) => if body_size != 0 || handler == 0 {
                None
            } else {
                Some(TransferBody::Download { handler })
            },
            None => None,
        },
    }
}

/// A demand on a run of addresses.
#[derive(Clone, Copy, Debug, PartialEq, Eq, Structural)]
pub struct RangeQuery {
    pub address: usize,
    pub len: usize,
    pub read: Option<bool>,
    pub write: Option<bool>,
    pub execute: Option<bool>,
    pub file_backed: bool,
}

/// A download handler, and what has to hold of the memory around it.
pub struct DownloadHandler {
    pub handler: usize,
    pub body: usize,
    pub demands: Vec<RangeQuery>,
}

/// The demands on a download handler: the object is readable, its vtable lies in a file
/// and is neither written nor run, and its method is code.
pub open spec fn handler_demands(
    layout: HttpLayout,
    handler: usize,
    vtable: usize,
    body: usize,
) -> Seq<RangeQuery> {
    seq![
        RangeQuery {
            address: handler,
            len: layout.word,
            read: Some(true),
            write: None,
            execute: None,
            file_backed: false,
        },
        RangeQuery {
            address: vtable,
            len: (layout.download_body_vtable + layout.word) as usize,
            read: Some(true),
            write: Some(false),
            execute: Some(false),
            file_backed: true,
        },
        RangeQuery {
            address: body,
            len: 1,
            read: Some(true),
            write: None,
            execute: Some(true),
            file_backed: false,
        },
    ]
}

/// Where a handler's method is pointed to from.
pub fn handler_slot(layout: &HttpLayout, vtable: usize) -> (address: Option<usize>)
    ensures
        address is Some <==> vtable + layout.download_body_vtable <= usize::MAX,
        address is Some ==> address->0 == vtable + layout.download_body_vtable,
{
    vtable.checked_add(layout.download_body_vtable)
}

/// Prepares a download handler from its vtable and its method, as far as they could be
/// read.
pub fn prepare_download_handler(
    layout: &HttpLayout,
    handler: usize,
    vtable: Option<usize>,
    body: Option<usize>,
) -> (prepared: Option<DownloadHandler>)
    ensures
        prepared is Some <==> handler != 0 && vtable is Some && body is Some
            && layout.download_body_vtable + layout.word <= usize::MAX && vtable->0
            + layout.download_body_vtable <= usize::MAX,
        prepared is Some ==> {
            &&& prepared->0.handler == handler
            &&& prepared->0.body == body->0
            &&& prepared->0.demands@ == handler_demands(*layout, handler, vtable->0, body->0)
        },
{
    if handler == 0 {
        return None;
    }
    let vtable: usize = match vtable {
        Some(vtable) => vtable,
        None => {
            return None;
        },
    };
    let vtable_len: usize = match layout.download_body_vtable.checked_add(layout.word) {
        Some(len) => len,
        None => {
            return None;
        },
    };
    if handler_slot(layout, vtable).is_none() {
        return None;
    }
    let body: usize = match body {
        Some(body) => body,
        None => {
            return None;
        },
    };
    let demands: Vec<RangeQuery> = vec![
        RangeQuery {
            address: handler,
            len: layout.word,
            read: Some(true),
            write: None,
            execute: None,
            file_backed: false,
        },
        RangeQuery {
            address: vtable,
            len: vtable_len,
            read: Some(true),
            write: Some(false),
            execute: Some(false),
            file_backed: true,
        },
        RangeQuery {
            address: body,
            len: 1,
            read: Some(true),
            write: None,
            execute: Some(true),
            file_backed: false,
        },
    ];
    assert(demands@ =~= handler_demands(*layout, handler, vtable, body));
    Some(DownloadHandler { handler, body, demands })
}

/// What was read of a job and its response, as far as it could be read.
#[derive(Clone, Copy, Debug, PartialEq, Eq, Structural)]
pub struct JobImage {
    pub request: Option<usize>,
    pub complete: Option<u8>,
    pub success: Option<u8>,
    pub response: Option<usize>,
    pub status: Option<i32>,
}

/// Where the status is written, and what has to hold of the memory there.
pub struct ResponseSlot {
    pub status_address: usize,
    pub demands: Vec<RangeQuery>,
}

/// Whether an offset can be added to an address.
pub open spec fn reaches(base: usize, offset: usize) -> bool {
    base + offset <= usize::MAX
}

/// Whether a job is the one of the request, with flags that are flags and a status that
/// is a status.
pub open spec fn job_is_sound(
    job: usize,
    request: usize,
    layout: HttpLayout,
    image: JobImage,
) -> bool {
    &&& job != 0 && request != 0
    &&& reaches(job, layout.job_request) && image.request == Some(request)
    &&& reaches(job, layout.job_complete) && image.complete is Some && image.complete->0 <= 1
    &&& reaches(job, layout.job_success) && image.success is Some && image.success->0 <= 1
    &&& reaches(job, layout.job_response) && image.response is Some && image.response->0 != 0
    &&& reaches(image.response->0, layout.response_status)
    &&& image.status is Some && 0 <= image.status->0 <= 599
}

/// The demands on what is written: both flags and the status.
pub open spec fn response_demands(job: usize, response: usize, layout: HttpLayout) -> Seq<
    RangeQuery,
> {
    seq![
        RangeQuery {
            address: (job + layout.job_complete) as usize,
            len: (layout.job_success - layout.job_complete + 1) as usize,
            read: Some(true),
            write: Some(true),
            execute: None,
            file_backed: false,
        },
        RangeQuery {
            address: (response + layout.response_status) as usize,
            len: 4,
            read: Some(true),
            write: Some(true),
            execute: None,
            file_backed: false,
        },
    ]
}

/// The place of a response's status, if everything that was read of the job is sound.
pub fn unset_response_status(
    job: usize,
    request: usize,
    layout: &HttpLayout,
    image: &JobImage,
) -> (slot: Option<ResponseSlot>)
    requires
        layout.job_complete <= layout.job_success < usize::MAX,
    ensures
        slot is Some <==> job_is_sound(job, request, *layout, *image),
        slot is Some ==> {
            &&& slot->0.status_address == image.response->0 + layout.response_status
            &&& slot->0.demands@ == response_demands(job, image.response->0, *layout)
        },
{
    if job == 0 || request == 0 {
        return None;
    }
    if job.checked_add(layout.job_request).is_none() || job.checked_add(
        layout.job_success,
    ).is_none() || job.checked_add(layout.job_response).is_none() {
        return None;
    }
    let flags: usize = match job.checked_add(layout.job_complete) {
        Some(flags) => flags,
        None => {
            return None;
        },
    };
    match image.request {
        Some(owned) => {
            if owned != request {
                return None;
            }
        },
        None => {
            return None;
        },
    }
    match (image.complete, image.success) {
        (Some(complete), Some(success)) => {
            if complete > 1 || success > 1 {
                return None;
            }
        },
        _ => {
            return None;
        },
    }
    let response: usize = match image.response {
        Some(response) => response,
        None => {
            return None;
        },
    };
    if response == 0 {
        return None;
    }
    let status_address: usize = match response.checked_add(layout.response_status) {
        Some(address) => address,
        None => {
            return None;
        },
    };
    match image.status {
        Some(status) => {
            if status < 0 || status > 599 {
                return None;
            }
        },
        None => {
            return None;
        },
    }
    let flags_len: usize = layout.job_success - layout.job_complete + 1;
    let demands: Vec<RangeQuery> = vec![
        RangeQuery {
            address: flags,
            len: flags_len,
            read: Some(true),
            write: Some(true),
            execute: None,
            file_backed: false,
        },
        RangeQuery {
            address: status_address,
            len: 4,
            read: Some(true),
            write: Some(true),
            execute: None,
            file_backed: false,
        },
    ];
    assert(demands@ =~= response_demands(job, response, *layout));
    Some(ResponseSlot { status_address, demands })
}

/// What is written to a job that is over.
#[derive(Clone, Copy, Debug, PartialEq, Eq, Structural)]
pub struct JobCompletion {
    pub status: i32,
    pub success: u8,
    pub complete: u8,
}

pub fn complete_job(success: bool) -> (completion: JobCompletion)
    ensures
        completion == (JobCompletion {
            status: if success {
                200
            } else {
                500
            },
            success: if success {
                1
            } else {
                0
            },
            complete: 1,
        }),
{
    if success {
        JobCompletion { status: 200, success: 1, complete: 1 }
    } else {
        JobCompletion { status: 500, success: 0, complete: 1 }
    }
}

/// How a transfer ended.
#[derive(Clone, Copy, Debug, PartialEq, Eq, Structural)]
pub enum TransferOutcome {
    Upload { ok: bool },
    /// The length of the body; none where it failed.
    Download { body_len: Option<usize> },
}

/// What is done with an outcome.
#[derive(Clone, Copy, Debug, PartialEq, Eq, Structural)]
pub enum Delivery {
    /// The job is completed.
    Complete { success: bool },
    /// The handler gets so many bytes; then the job is completed with success.
    CallHandler { put: i32 },
}

/// Delivers an outcome: a body goes to the handler, if there is one and the body fits in
/// its buffer.
pub fn deliver_outcome(outcome: TransferOutcome, handler_admitted: bool) -> (delivery: Delivery)
    ensures
        delivery == match outcome {
            TransferOutcome::Upload { ok } => Delivery::Complete { success: ok },
            TransferOutcome::Download { body_len } => if body_len is Some && handler_admitted
                && body_len->0 <= i32::MAX {
                Delivery::CallHandler { put: body_len->0 as i32 }
            } else {
                Delivery::Complete { success: false }
            },
        },
{
    match outcome {
        TransferOutcome::Upload { ok } => Delivery::Complete { success: ok },
        TransferOutcome::Download { body_len } => match body_len {
            Some(len) => if handler_admitted && len as u64 <= i32::MAX as u64 {
                Delivery::CallHandler { put: len as i32 }
            } else {
                Delivery::Complete { success: false }
            },
            None => Delivery::Complete { success: false },
        },
    }
}

/// What happens to a request that Steam starts.
#[derive(Clone, Copy, Debug, PartialEq, Eq, Structural)]
pub enum JobStart {
    /// Steam's own code runs it.
    Forward,
    /// It is answered in the process.
    Answer,
}

/// A request is answered where it was admitted, its memory meets all demands, and the
/// transfer was still open.
pub fn http_job_start(admitted: bool, demands_met: bool, transfer_open: bool) -> (start: JobStart)
    ensures
        start == if admitted && demands_met && transfer_open {
            JobStart::Answer
        } else {
            JobStart::Forward
        },
{
    if admitted && demands_met && transfer_open {
        JobStart::Answer
    } else {
        JobStart::Forward
    }
}

/// A request is answered only where it agrees with the transfer that it names: an upload of
/// exactly the bytes that were announced, up to half a gibibyte, and a download without a
/// body of its own, into a handler. What is read or called then is what the request points
/// to.
pub proof fn law_transfers_agree_with_their_contract(
    contract: TransferContract,
    body_data: usize,
    body_size: i32,
    download_handler: Option<usize>,
    body: Option<TransferBody>,
)
    requires
        call_ensures(
            admit_local_transfer,
            (contract, body_data, body_size, download_handler),
            body,
        ),
    ensures
        contract matches TransferContract::Upload { transfer_size } ==> {
            &&& body is Some <==> transfer_size <= 536870912 && body_size == transfer_size && (
            transfer_size == 0 || body_data != 0)
            &&& body is Some ==> body->0 == (TransferBody::Upload {
                address: body_data,
                size: transfer_size as usize,
            })
        },
        contract is Download ==> {
            &&& body is Some <==> body_size == 0 && download_handler is Some && download_handler->0
                != 0
            &&& body is Some ==> body->0 == (TransferBody::Download {
                handler: download_handler->0,
            })
        },
{
}

/// A text is read up to its terminator: what stands before the first zero, if it is valid.
pub proof fn law_texts_are_read_to_their_end(address: usize, text: Seq<u8>, rest: Seq<u8>)
    requires
        address != 0,
        text.len() < 2048,
        forall|i: int| 0 <= i < text.len() ==> text[i] != 0,
    ensures
        text_at(address, Some(text + seq![0u8] + rest)) == if valid_utf8(text) {
            Some(decode_utf8(text))
        } else {
            None
        },
        text_at(address, Some(text)) is None,
        text_at(address, None) is None,
        text_at(0, None) == Some(Seq::<char>::empty()),
{
    let memory = text + seq![0u8] + rest;
    let window = text_window(memory);
    assert(window.len() > text.len());
    assert forall|i: int| 0 <= i < text.len() implies window[i] == text[i] by {}
    assert(window[text.len() as int] == 0);
    lemma_terminator_is_found(window, 0, text.len() as int);
    assert(window.take(text.len() as int) =~= text);
    lemma_no_terminator(text, 0);
}

proof fn lemma_terminator_is_found(memory: Seq<u8>, from: int, end: int)
    requires
        0 <= from <= end < memory.len(),
        memory[end] == 0,
        forall|i: int| from <= i < end ==> memory[i] != 0,
    ensures
        terminated_at(memory, from) == Some(end),
    decreases end - from,
{
    if from < end {
        lemma_terminator_is_found(memory, from + 1, end);
    }
}

proof fn lemma_no_terminator(memory: Seq<u8>, from: int)
    requires
        0 <= from <= memory.len(),
        forall|i: int| from <= i < memory.len() ==> memory[i] != 0,
    ensures
        terminated_at(memory, from) is None,
    decreases memory.len() - from,
{
    if from < memory.len() {
        lemma_no_terminator(memory, from + 1);
    }
}

/// Whether some demand asks for memory of that kind around an address.
pub open spec fn is_demanded(
    demands: Seq<RangeQuery>,
    address: int,
    len: int,
    read: bool,
    write: Option<bool>,
    execute: Option<bool>,
    file_backed: bool,
) -> bool {
    exists|i: int|
        0 <= i < demands.len() && (#[trigger] demands[i]).address <= address && address + len
            <= demands[i].address + demands[i].len && demands[i].read == Some(read)
            && demands[i].write == write && demands[i].execute == execute && demands[i].file_backed
            == file_backed
}

/// Nothing of a job is written that was not demanded to be writable: its status and both of
/// its flags. A slot is given exactly for the request's own job, with sound flags, a response
/// and a status that is one.
pub proof fn law_written_places_are_demanded(
    job: usize,
    request: usize,
    layout: &HttpLayout,
    image: &JobImage,
    slot: Option<ResponseSlot>,
)
    requires
        layout.job_complete <= layout.job_success < usize::MAX,
        call_ensures(unset_response_status, (job, request, layout, image), slot),
    ensures
        slot matches Some(slot) ==> {
            &&& slot.status_address == image.response->0 + layout.response_status
            &&& is_demanded(
                slot.demands@,
                slot.status_address as int,
                4,
                true,
                Some(true),
                None,
                false,
            )
            &&& is_demanded(
                slot.demands@,
                job + layout.job_complete,
                1,
                true,
                Some(true),
                None,
                false,
            )
            &&& is_demanded(
                slot.demands@,
                job + layout.job_success,
                1,
                true,
                Some(true),
                None,
                false,
            )
            &&& job != 0 && request != 0 && image.request == Some(request)
            &&& image.complete matches Some(flag) && flag <= 1
            &&& image.success matches Some(flag) && flag <= 1
            &&& image.response matches Some(response) && response != 0
            &&& image.status matches Some(status) && 0 <= status < 600
        },
        (job != 0 && request != 0 && image.request == Some(request) && image.complete is Some
            && image.complete->0 <= 1 && image.success is Some && image.success->0 <= 1
            && image.response is Some && image.response->0 != 0 && image.status is Some && 0
            <= image.status->0 < 600 && job + layout.job_request <= usize::MAX && job
            + layout.job_complete <= usize::MAX && job + layout.job_success <= usize::MAX && job
            + layout.job_response <= usize::MAX && image.response->0 + layout.response_status
            <= usize::MAX) ==> slot is Some,
{
    if let Some(slot) = slot {
        let demands = slot.demands@;
        assert(demands[0].address == job + layout.job_complete);
        assert(demands[1].address == slot.status_address);
    }
}

/// A handler is called only where its object can be read, its table lies in a file, is
/// neither written nor run and holds the method, and the method is code.
pub proof fn law_called_handlers_are_demanded(
    layout: &HttpLayout,
    handler: usize,
    vtable: Option<usize>,
    body: Option<usize>,
    prepared: Option<DownloadHandler>,
)
    requires
        call_ensures(prepare_download_handler, (layout, handler, vtable, body), prepared),
    ensures
        prepared matches Some(prepared) ==> {
            &&& prepared.handler == handler && handler != 0
            &&& body == Some(prepared.body)
            &&& is_demanded(
                prepared.demands@,
                handler as int,
                layout.word as int,
                true,
                None,
                None,
                false,
            )
            &&& is_demanded(
                prepared.demands@,
                vtable->0 + layout.download_body_vtable,
                layout.word as int,
                true,
                Some(false),
                Some(false),
                true,
            )
            &&& is_demanded(
                prepared.demands@,
                prepared.body as int,
                1,
                true,
                None,
                Some(true),
                false,
            )
        },
{
    if let Some(prepared) = prepared {
        let demands = prepared.demands@;
        assert(demands[0].address == handler);
        assert(demands[1].address == vtable->0);
        assert(demands[2].address == prepared.body);
    }
}

} // verus!
