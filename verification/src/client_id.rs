//! The client id: reading it, or catching it when Steam writes it.
use crate::bytes::same_bytes;
use crate::steam_context::{CapturedInterfaces, Identity, SteamContext};
use vstd::prelude::*;
use vstd::slice::slice_to_vec;

verus! {

/// The store that holds the client id.
pub const INSTALL_CONFIG_STORE: u32 = 1;

/// `streaming/ClientID`.
pub const CLIENT_ID_KEY: [u8; 18] = [
    0x73, 0x74, 0x72, 0x65, 0x61, 0x6d, 0x69, 0x6e, 0x67, 0x2f, 0x43, 0x6c, 0x69, 0x65, 0x6e, 0x74,
    0x49, 0x44,
];

/// `sitelicense/ClientID`.
pub const SITE_LICENSE_KEY: [u8; 20] = [
    0x73, 0x69, 0x74, 0x65, 0x6c, 0x69, 0x63, 0x65, 0x6e, 0x73, 0x65, 0x2f, 0x43, 0x6c, 0x69, 0x65,
    0x6e, 0x74, 0x49, 0x44,
];

/// Whether a key names a client id.
pub fn is_client_id_key(key: Option<&[u8]>) -> (found: bool)
    ensures
        found == (key is Some && (key->0@ == CLIENT_ID_KEY@ || key->0@ == SITE_LICENSE_KEY@)),
{
    match key {
        Some(key) => same_bytes(key, CLIENT_ID_KEY.as_slice()) || same_bytes(
            key,
            SITE_LICENSE_KEY.as_slice(),
        ),
        None => false,
    }
}

/// The values that may hold the client id, in the order in which they are read.
#[derive(Clone, Copy, Debug, PartialEq, Eq, Structural)]
pub enum ClientIdSource {
    Streaming,
    SiteLicense,
}

/// One read from a configuration store.
pub struct ConfigRead {
    pub store: u32,
    /// The key, with the zero at its end.
    pub key: Vec<u8>,
    /// What is read where the key is absent.
    pub default: u64,
}

/// The read that a source stands for.
pub fn client_id_read(source: ClientIdSource) -> (read: ConfigRead)
    ensures
        read.store == INSTALL_CONFIG_STORE,
        read.key@ == match source {
            ClientIdSource::Streaming => CLIENT_ID_KEY@,
            ClientIdSource::SiteLicense => SITE_LICENSE_KEY@,
        }.push(0),
        read.default == 0,
{
    let mut key: Vec<u8> = match source {
        ClientIdSource::Streaming => slice_to_vec(CLIENT_ID_KEY.as_slice()),
        ClientIdSource::SiteLicense => slice_to_vec(SITE_LICENSE_KEY.as_slice()),
    };
    key.push(0);
    ConfigRead { store: INSTALL_CONFIG_STORE, key, default: 0 }
}

/// What follows on a value that was read.
#[derive(Clone, Copy, Debug, PartialEq, Eq, Structural)]
pub enum ClientIdStep {
    Found(u64),
    /// Another value is read next.
    Read(ClientIdSource),
    Absent,
}

/// Decides on the streaming value: it is the client id unless it is zero.
pub fn streaming_client_id(value: u64) -> (step: ClientIdStep)
    ensures
        step == if value != 0 {
            ClientIdStep::Found(value)
        } else {
            ClientIdStep::Read(ClientIdSource::SiteLicense)
        },
{
    if value != 0 {
        ClientIdStep::Found(value)
    } else {
        ClientIdStep::Read(ClientIdSource::SiteLicense)
    }
}

/// Decides on the site license's value.
pub fn site_license_client_id(value: u64) -> (step: ClientIdStep)
    ensures
        step == if value != 0 {
            ClientIdStep::Found(value)
        } else {
            ClientIdStep::Absent
        },
{
    if value != 0 {
        ClientIdStep::Found(value)
    } else {
        ClientIdStep::Absent
    }
}

/// Why the client id cannot be read.
#[derive(Clone, Copy, Debug, PartialEq, Eq, Structural)]
pub enum ClientIdError {
    GetterNotValidated,
    GetterInvalid,
}

impl ClientIdError {
    pub open spec fn text(self) -> Seq<char> {
        match self {
            ClientIdError::GetterNotValidated =>
                "IClientConfigStore::GetUint64 semantic validation failed"@,
            ClientIdError::GetterInvalid => "IClientConfigStore::GetUint64 address is invalid"@,
        }
    }

    pub fn message(self) -> (message: &'static str)
        ensures
            message@ == self.text(),
    {
        match self {
            ClientIdError::GetterNotValidated =>
                "IClientConfigStore::GetUint64 semantic validation failed",
            ClientIdError::GetterInvalid => "IClientConfigStore::GetUint64 address is invalid",
        }
    }
}

/// The wait for a client id that Steam writes.
#[derive(Clone, Copy, Debug, PartialEq, Eq, Structural)]
pub struct ClientIdCapture {
    pub armed: bool,
    pub revision: u64,
    pub config_store: usize,
}

/// One write to a configuration store.
pub struct ConfigWrite<'a> {
    pub receiver: usize,
    pub store: u32,
    pub key: Option<&'a [u8]>,
    pub value: u64,
}

impl ClientIdCapture {
    pub fn new() -> (capture: Self)
        ensures
            capture == (ClientIdCapture { armed: false, revision: 0, config_store: 0 }),
    {
        ClientIdCapture { armed: false, revision: 0, config_store: 0 }
    }

    /// Waits for a write to the captured store.
    pub fn arm_capture(&mut self, captured: &CapturedInterfaces)
        ensures
            *final(self) == (ClientIdCapture {
                armed: true,
                revision: captured.revision,
                config_store: captured.values.config_store,
            }),
    {
        self.revision = captured.revision;
        self.config_store = captured.values.config_store;
        self.armed = true;
    }

    /// Begins to read the client id through a method of the store, and waits for a write in
    /// case nothing is found. `getter` is the method's address, where it was recognised.
    pub fn read_or_arm(&mut self, captured: &CapturedInterfaces, getter: Option<usize>) -> (method:
        Result<usize, ClientIdError>)
        ensures
            method == match getter {
                None => Err::<usize, ClientIdError>(ClientIdError::GetterNotValidated),
                Some(address) => if address == 0 {
                    Err(ClientIdError::GetterInvalid)
                } else {
                    Ok(address)
                },
            },
            *final(self) == if method is Ok {
                ClientIdCapture {
                    armed: true,
                    revision: captured.revision,
                    config_store: captured.values.config_store,
                }
            } else {
                *old(self)
            },
    {
        match getter {
            None => Err(ClientIdError::GetterNotValidated),
            Some(address) => {
                if address == 0 {
                    return Err(ClientIdError::GetterInvalid);
                }
                self.arm_capture(captured);
                Ok(address)
            },
        }
    }

    pub fn cancel_capture(&mut self)
        ensures
            *final(self) == (ClientIdCapture { armed: false, ..*old(self) }),
    {
        self.armed = false;
    }

    /// Settles an attempt to read: the wait goes on only where nothing was found and the
    /// context stayed the same.
    pub fn settle_read(&mut self, context_current: bool, found: Option<u64>) -> (result: Result<
        Option<u64>,
        (),
    >)
        ensures
            result is Ok <==> context_current,
            result is Ok ==> result->Ok_0 == found,
            final(self).armed == (old(self).armed && context_current && found is None),
            final(self).revision == old(self).revision,
            final(self).config_store == old(self).config_store,
    {
        if !context_current {
            self.armed = false;
            return Err(());
        }
        if found.is_some() {
            self.armed = false;
        }
        Ok(found)
    }

    /// Whether a write is the one waited for.
    pub open spec fn awaits(self, write: ConfigWrite) -> bool {
        self.armed && write.store == INSTALL_CONFIG_STORE && write.value != 0 && write.receiver
            == self.config_store && write.key is Some && (write.key->0@ == CLIENT_ID_KEY@
            || write.key->0@ == SITE_LICENSE_KEY@)
    }

    /// Takes the client id out of a write, once, if the write is the one waited for and
    /// the store is still that of the account.
    pub fn observe_write(
        &mut self,
        write: &ConfigWrite,
        callbacks_ready: bool,
        context: &SteamContext,
        identity: Identity,
    ) -> (client_id: Option<u64>)
        ensures
            client_id is Some <==> callbacks_ready && old(self).awaits(*write) && old(
                self,
            ).revision != 0 && old(self).revision == context.revision && write.receiver
                == context.values.config_store && SteamContext::belongs_to(
                context.values,
                identity,
            ),
            client_id is Some ==> client_id->0 == write.value,
            *final(self) == if client_id is Some {
                ClientIdCapture { armed: false, ..*old(self) }
            } else {
                *old(self)
            },
    {
        if !callbacks_ready || !self.armed || write.store != INSTALL_CONFIG_STORE || write.value
            == 0 || write.receiver != self.config_store || !is_client_id_key(write.key) {
            return None;
        }
        if !context.config_store_is_current(self.revision, write.receiver, identity) {
            return None;
        }
        self.armed = false;
        Some(write.value)
    }
}

/// A client id is taken once: after it was taken, no write is the one waited for.
pub proof fn law_client_id_is_taken_once(capture: ClientIdCapture, write: ConfigWrite)
    ensures
        !(ClientIdCapture { armed: false, ..capture }).awaits(write),
{
}

/// Either key names the client id: a write is waited for under one exactly where it is under
/// the other, and under no further key.
pub proof fn law_both_keys_name_the_client_id(
    capture: ClientIdCapture,
    streaming: ConfigWrite,
    site: ConfigWrite,
    other: ConfigWrite,
)
    requires
        streaming.key is Some && streaming.key->0@ == CLIENT_ID_KEY@,
        site.key is Some && site.key->0@ == SITE_LICENSE_KEY@,
        streaming.store == site.store && streaming.value == site.value && streaming.receiver
            == site.receiver,
        other.key is Some ==> other.key->0@ != CLIENT_ID_KEY@ && other.key->0@ != SITE_LICENSE_KEY@,
    ensures
        capture.awaits(streaming) == capture.awaits(site),
        capture.awaits(streaming) <==> capture.armed && streaming.value != 0 && streaming.receiver
            == capture.config_store && streaming.store == 1,
        !capture.awaits(other),
{
}

/// Whichever value holds the client id, it is found: the streaming one first, then the site
/// license's, and it is absent only where both are zero.
pub proof fn law_client_ids_are_found(
    streaming: u64,
    site: u64,
    first: ClientIdStep,
    second: ClientIdStep,
)
    requires
        call_ensures(streaming_client_id, (streaming,), first),
        call_ensures(site_license_client_id, (site,), second),
    ensures
        streaming != 0 ==> first == ClientIdStep::Found(streaming),
        streaming == 0 ==> first == ClientIdStep::Read(ClientIdSource::SiteLicense),
        site != 0 ==> second == ClientIdStep::Found(site),
        first is Found || second is Found || second is Absent,
        second is Absent <==> site == 0,
{
}

} // verus!
