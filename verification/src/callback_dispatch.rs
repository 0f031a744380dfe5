//! Registered Steam event contracts: which callbacks are consumed, and how
//! their fixed payloads decode.
use crate::bytes::{
    byte_bound, law_le_bytes_round_trip, le_bytes, le_i32, le_number, le_u32, le_value, same_bytes,
    signed_32,
};
use vstd::prelude::*;
use vstd::slice::slice_subrange;

verus! {

/// The largest API-call result that is copied.
pub const MAX_API_RESULT_PAYLOAD: usize = 1048576;

/// The largest internal callback payload that is copied.
pub const MAX_INTERNAL_CALLBACK_PAYLOAD: usize = 32;

/// `UserStatsReceived_t`.
pub const USER_STATS_RECEIVED: i32 = 1101;

/// `AppMinutesPlayedDataNotice_t`.
pub const APP_MINUTES_PLAYED_DATA_NOTICE: i32 = 0x000f_908e;

/// One callback id with the payload size it promises.
#[derive(Clone, Copy, Debug, PartialEq, Eq)]
pub struct CallbackRegistration {
    pub id: i32,
    pub name: &'static str,
    pub payload_size: usize,
}

/// The internal callback with an in-process consumer.
pub fn registration(id: i32) -> (found: Option<CallbackRegistration>)
    ensures
        found is Some <==> id == APP_MINUTES_PLAYED_DATA_NOTICE,
        found is Some ==> found->0.id == id && found->0.payload_size == 4 && found->0.name@
            == "AppMinutesPlayedDataNotice_t"@,
{
    if id == APP_MINUTES_PLAYED_DATA_NOTICE {
        Some(
            CallbackRegistration {
                id: APP_MINUTES_PLAYED_DATA_NOTICE,
                name: "AppMinutesPlayedDataNotice_t",
                payload_size: 4,
            },
        )
    } else {
        None
    }
}

/// Whether results of this callback are accepted from registered handles.
pub fn is_api_result_registered(id: i32) -> (registered: bool)
    ensures
        registered == (id == USER_STATS_RECEIVED),
{
    id == USER_STATS_RECEIVED
}

#[derive(Clone, Copy, Debug, PartialEq, Eq, Structural)]
pub struct CallbackHeader {
    pub steam_user: i32,
    pub callback: i32,
    pub payload_size: i32,
}

/// One fixed-size internal callback copied while Steam runs it.
#[derive(Clone, Copy, Debug, PartialEq, Eq)]
pub struct CallbackEvent {
    pub header: CallbackHeader,
    pub identity_generation: u64,
    pub steam_id64: u64,
    pub payload: [u8; 32],
}

/// A payload that Steam defines by its callback id and its length.
pub trait SteamPayload: Sized {
    spec fn callback_id_of() -> i32;

    spec fn decoded(payload: Seq<u8>) -> Option<Self>;

    fn callback_id() -> (id: i32)
        ensures
            id == Self::callback_id_of(),
    ;

    fn decode(payload: &[u8]) -> (value: Option<Self>)
        ensures
            value == Self::decoded(payload@),
    ;
}

/// `bytes` at the front of a zeroed payload buffer, cut at its end.
pub open spec fn padded_payload(bytes: Seq<u8>) -> Seq<u8> {
    Seq::new(32, |i: int| if i < bytes.len() { bytes[i] } else { 0u8 })
}

impl CallbackEvent {
    /// What `decode` gives for an event.
    pub open spec fn decoded<T: SteamPayload>(self) -> Option<T> {
        if self.header.callback == T::callback_id_of() && 0 <= self.header.payload_size <= 32 {
            T::decoded(self.payload@.subrange(0, self.header.payload_size as int))
        } else {
            None
        }
    }

    /// Copies a registered payload: none when Steam passed no payload, or when the
    /// registration promises more than fits.
    pub fn copy_from(
        steam_user: i32,
        identity_generation: u64,
        steam_id64: u64,
        registration: &CallbackRegistration,
        payload: Option<&[u8]>,
    ) -> (event: Option<Self>)
        requires
            payload is Some ==> payload->0@.len() == registration.payload_size,
        ensures
            event is Some <==> payload is Some && registration.payload_size
                <= MAX_INTERNAL_CALLBACK_PAYLOAD,
            event matches Some(event) ==> {
                &&& event.header == (CallbackHeader {
                    steam_user,
                    callback: registration.id,
                    payload_size: registration.payload_size as i32,
                })
                &&& event.identity_generation == identity_generation
                &&& event.steam_id64 == steam_id64
                &&& event.payload@ == padded_payload(payload->0@)
            },
    {
        match payload {
            Some(payload) => {
                if registration.payload_size > MAX_INTERNAL_CALLBACK_PAYLOAD {
                    return None;
                }
                Some(
                    Self::from_bytes(
                        steam_user,
                        identity_generation,
                        steam_id64,
                        registration.id,
                        payload,
                    ),
                )
            },
            None => None,
        }
    }

    /// The event of a payload that is at hand. The payload size must fit a Steam
    /// header field.
    pub fn from_bytes(
        steam_user: i32,
        identity_generation: u64,
        steam_id64: u64,
        callback: i32,
        payload: &[u8],
    ) -> (event: Self)
        requires
            payload@.len() <= i32::MAX,
        ensures
            event.header == (CallbackHeader {
                steam_user,
                callback,
                payload_size: payload@.len() as i32,
            }),
            event.identity_generation == identity_generation,
            event.steam_id64 == steam_id64,
            event.payload@ == padded_payload(payload@),
    {
        let mut copied: [u8; 32] = [0u8; 32];
        let size: usize = if payload.len() < 32 {
            payload.len()
        } else {
            32
        };
        let mut i: usize = 0;
        while i < size
            invariant
                i <= size <= payload@.len(),
                size <= 32,
                copied@.len() == 32,
                forall|k: int| 0 <= k < 32 ==> copied@[k] == if k < i {
                    payload@[k]
                } else {
                    0u8
                },
            decreases size - i,
        {
            copied[i] = payload[i];
            i = i + 1;
        }
        assert(copied@ =~= padded_payload(payload@));
        CallbackEvent {
            header: CallbackHeader { steam_user, callback, payload_size: payload.len() as i32 },
            identity_generation,
            steam_id64,
            payload: copied,
        }
    }

    /// The typed payload, when the callback id and the length agree.
    pub fn decode<T: SteamPayload>(&self) -> (value: Option<T>)
        ensures
            value == self.decoded::<T>(),
    {
        if self.header.payload_size < 0 || self.header.payload_size > 32 {
            return None;
        }
        if self.header.callback != T::callback_id() {
            return None;
        }
        let size: usize = self.header.payload_size as usize;
        T::decode(slice_subrange(self.payload.as_slice(), 0, size))
    }

    /// Whether two events agree in every field.
    pub fn same(&self, other: &CallbackEvent) -> (same: bool)
        ensures
            same == (*self == *other),
    {
        let equal: bool = self.header == other.header && self.identity_generation
            == other.identity_generation && self.steam_id64 == other.steam_id64 && same_bytes(
            self.payload.as_slice(),
            other.payload.as_slice(),
        );
        proof {
            if equal {
                assert(self.payload@ == other.payload@);
                assert(self.payload =~= other.payload);
            }
        }
        equal
    }
}

/// A payload that was copied whole is read back as it was, by whoever knows its callback.
pub proof fn law_copied_payload_is_read_back<T: SteamPayload>(event: CallbackEvent, bytes: Seq<u8>)
    requires
        bytes.len() <= 32,
        event.header.payload_size == bytes.len(),
        event.payload@ == padded_payload(bytes),
    ensures
        event.decoded::<T>() == if event.header.callback == T::callback_id_of() {
            T::decoded(bytes)
        } else {
            None
        },
{
    assert(event.payload@.subrange(0, bytes.len() as int) =~= bytes);
}

/// A registered `SteamAPICall_t` and its copied result payload.
#[derive(Clone, Debug, PartialEq, Eq)]
pub struct ApiCallResultEvent {
    pub api_call: u64,
    pub callback: i32,
    pub payload_size: i32,
    pub payload: Vec<u8>,
}

/// The part of a result payload that is kept: all of it, or nothing when the
/// announced size is negative, too large, or comes without a payload.
pub open spec fn kept_payload(payload_size: i32, payload: Option<Seq<u8>>) -> Seq<u8> {
    if 0 < payload_size <= MAX_API_RESULT_PAYLOAD && payload is Some {
        payload->0
    } else {
        Seq::empty()
    }
}

impl ApiCallResultEvent {
    pub fn new(api_call: u64, callback: i32, payload_size: i32, payload: Vec<u8>) -> (event: Self)
        ensures
            event == (ApiCallResultEvent { api_call, callback, payload_size, payload }),
    {
        ApiCallResultEvent { api_call, callback, payload_size, payload }
    }

    /// Copies a live result payload.
    pub fn copy_from(
        api_call: u64,
        callback: i32,
        payload_size: i32,
        payload: Option<&[u8]>,
    ) -> (event: Self)
        requires
            payload is Some && payload_size >= 0 ==> payload->0@.len() == payload_size,
        ensures
            event.api_call == api_call,
            event.callback == callback,
            event.payload_size == payload_size,
            event.payload@ == kept_payload(
                payload_size,
                match payload {
                    Some(bytes) => Some(bytes@),
                    None => None,
                },
            ),
    {
        let mut copied: Vec<u8> = Vec::new();
        if payload_size > 0 && payload_size as u32 <= MAX_API_RESULT_PAYLOAD as u32 {
            if let Some(bytes) = payload {
                copied.extend_from_slice(bytes);
                assert(copied@ =~= bytes@);
            }
        }
        ApiCallResultEvent { api_call, callback, payload_size, payload: copied }
    }

    /// The typed payload, when the callback id and the length agree.
    pub fn decode<T: SteamPayload>(&self) -> (value: Option<T>)
        ensures
            value == if self.callback == T::callback_id_of() {
                T::decoded(self.payload@)
            } else {
                None
            },
    {
        if self.callback == T::callback_id() {
            T::decode(self.payload.as_slice())
        } else {
            None
        }
    }
}

#[derive(Clone, Copy, Debug, PartialEq, Eq, Structural)]
pub struct AppMinutesPlayedDataNotice {
    pub app_id: u32,
}

impl SteamPayload for AppMinutesPlayedDataNotice {
    open spec fn callback_id_of() -> i32 {
        APP_MINUTES_PLAYED_DATA_NOTICE
    }

    open spec fn decoded(payload: Seq<u8>) -> Option<Self> {
        if payload.len() == 4 {
            Some(AppMinutesPlayedDataNotice { app_id: le_value(payload) as u32 })
        } else {
            None
        }
    }

    fn callback_id() -> (id: i32) {
        APP_MINUTES_PLAYED_DATA_NOTICE
    }

    fn decode(payload: &[u8]) -> (value: Option<Self>) {
        if payload.len() == 4 {
            Some(AppMinutesPlayedDataNotice { app_id: le_u32(payload) })
        } else {
            None
        }
    }
}

/// Steam's packed `UserStatsReceived_t` result.
#[derive(Clone, Copy, Debug, PartialEq, Eq, Structural)]
pub struct UserStatsReceived {
    pub game_id: u64,
    pub result: i32,
    pub steam_id: u64,
}

impl SteamPayload for UserStatsReceived {
    open spec fn callback_id_of() -> i32 {
        USER_STATS_RECEIVED
    }

    open spec fn decoded(payload: Seq<u8>) -> Option<Self> {
        if payload.len() == 20 {
            Some(
                UserStatsReceived {
                    game_id: le_value(payload.subrange(0, 8)) as u64,
                    result: signed_32(le_value(payload.subrange(8, 12)) as int) as i32,
                    steam_id: le_value(payload.subrange(12, 20)) as u64,
                },
            )
        } else {
            None
        }
    }

    fn callback_id() -> (id: i32) {
        USER_STATS_RECEIVED
    }

    fn decode(payload: &[u8]) -> (value: Option<Self>) {
        if payload.len() == 20 {
            Some(
                UserStatsReceived {
                    game_id: le_number(slice_subrange(payload, 0, 8)),
                    result: le_i32(slice_subrange(payload, 8, 12)),
                    steam_id: le_number(slice_subrange(payload, 12, 20)),
                },
            )
        } else {
            None
        }
    }
}

/// Payloads mean what Steam writes into them: a notice is the app's number in four bytes, and
/// a stats result is the game in eight, the outcome in four and the account in eight, the
/// lowest byte first. Nothing else is read as one.
pub proof fn law_payloads_are_read_back(app_id: u32, game_id: u64, result: u32, steam_id: u64)
    ensures
        AppMinutesPlayedDataNotice::decoded(le_bytes(app_id as nat, 4)) == Some(
            AppMinutesPlayedDataNotice { app_id },
        ),
        ({
            let payload = le_bytes(game_id as nat, 8) + le_bytes(result as nat, 4) + le_bytes(
                steam_id as nat,
                8,
            );
            let read = UserStatsReceived::decoded(payload);
            &&& read is Some
            &&& read->0.game_id == game_id
            &&& read->0.steam_id == steam_id
            &&& result <= 0x7fff_ffff ==> read->0.result == result
            &&& result > 0x7fff_ffff ==> read->0.result == result - 0x1_0000_0000
        }),
{
    lemma_byte_bounds();
    law_le_bytes_round_trip(app_id as nat, 4);
    law_le_bytes_round_trip(game_id as nat, 8);
    law_le_bytes_round_trip(result as nat, 4);
    law_le_bytes_round_trip(steam_id as nat, 8);
    let payload = le_bytes(game_id as nat, 8) + le_bytes(result as nat, 4) + le_bytes(
        steam_id as nat,
        8,
    );
    assert(payload.subrange(0, 8) =~= le_bytes(game_id as nat, 8));
    assert(payload.subrange(8, 12) =~= le_bytes(result as nat, 4));
    assert(payload.subrange(12, 20) =~= le_bytes(steam_id as nat, 8));
}

proof fn lemma_byte_bounds()
    ensures
        byte_bound(4) == 0x1_0000_0000,
        byte_bound(8) == 0x1_0000_0000_0000_0000,
{
    reveal_with_fuel(byte_bound, 9);
}

/// A payload of another length is none.
pub proof fn law_other_lengths_are_no_payload(payload: Seq<u8>)
    ensures
        payload.len() != 4 ==> AppMinutesPlayedDataNotice::decoded(payload) is None,
        payload.len() != 20 ==> UserStatsReceived::decoded(payload) is None,
{
}

/// A payload is kept as it came, with nothing but zeros behind it.
pub proof fn law_copied_payloads_are_whole(bytes: Seq<u8>)
    requires
        bytes.len() <= 32,
    ensures
        padded_payload(bytes).len() == 32,
        forall|i: int| 0 <= i < bytes.len() ==> #[trigger] padded_payload(bytes)[i] == bytes[i],
        forall|i: int| bytes.len() <= i < 32 ==> #[trigger] padded_payload(bytes)[i] == 0,
{
}

/// A result keeps its payload whole, up to a mebibyte, where Steam passes one of the size it
/// announces; otherwise it keeps none.
pub proof fn law_results_keep_their_payload(
    api_call: u64,
    callback: i32,
    payload_size: i32,
    payload: Option<&[u8]>,
    event: ApiCallResultEvent,
)
    requires
        call_ensures(
            ApiCallResultEvent::copy_from,
            (api_call, callback, payload_size, payload),
            event,
        ),
    ensures
        event.api_call == api_call,
        event.callback == callback,
        event.payload_size == payload_size,
        payload is Some && 0 < payload_size <= 1048576 ==> event.payload@ == payload->0@,
        payload is None || payload_size <= 0 || payload_size > 1048576 ==> event.payload@.len()
            == 0,
{
}

} // verus!
