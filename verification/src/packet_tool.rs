//! The command line of the packet tool: what its arguments mean, and what it asks the
//! running client for.
use crate::packet_dump::{behind_last, first_at, lemma_behind_last, lemma_first_is, part_of};
use crate::paths::texts_of;
use crate::text::{
    begins_with, chars_of, concat, decimal, decimal_of, is_decimal_digit, is_space,
    law_decimals_are_read_back, law_numbers_are_digits, law_readings_agree, number_of,
    parse_number, quoted, quoted_of, starts_with_text, text_eq, text_of, NumberError,
};
use vstd::prelude::*;
use vstd::slice::slice_subrange;
use vstd::string::*;

verus! {

/// What the tool prints when it is asked for help.
pub const USAGE: &'static str =
    "usage: vapor-forge-packet-tool [--socket PATH] [--format text|json] <command>\n\ncommands:\n  capture status\n  capture on [--raw] [--direction send|recv] [--type TYPE] [--emsg EMSG] [--app-id APPID] [--changed CHANGE]\n  capture off\n  capture clear\n  capture limit N\n  capture filter-clear\n  list [filters]\n  show ID\n  save ID PATH\n  watch [filters] [--interval-ms N]\n  decode [--direction send|recv] [--file PATH | --hex HEX]\n  explain [send|recv] [--file PATH | --hex HEX]\n  simulate [send|recv] [--config PATH] [--file PATH | --hex HEX]";

/// How often a watch looks when nothing else is said.
pub const DEFAULT_INTERVAL_MS: u64 = 1000;

#[derive(Clone, Copy, Debug, PartialEq, Eq, Structural)]
pub enum OutputFormat {
    Text,
    Json,
}

/// Which way a packet goes.
#[derive(Clone, Copy, Debug, PartialEq, Eq, Structural)]
pub enum PacketDirection {
    Send,
    Recv,
}

/// The options that take a value.
#[derive(Clone, Copy, Debug, PartialEq, Eq, Structural)]
pub enum Flag {
    Socket,
    Format,
    Direction,
    Type,
    Emsg,
    AppId,
    Changed,
    File,
    Hex,
    Config,
    IntervalMs,
}

impl Flag {
    pub open spec fn text(self) -> Seq<char> {
        match self {
            Flag::Socket => "--socket"@,
            Flag::Format => "--format"@,
            Flag::Direction => "--direction"@,
            Flag::Type => "--type"@,
            Flag::Emsg => "--emsg"@,
            Flag::AppId => "--app-id"@,
            Flag::Changed => "--changed"@,
            Flag::File => "--file"@,
            Flag::Hex => "--hex"@,
            Flag::Config => "--config"@,
            Flag::IntervalMs => "--interval-ms"@,
        }
    }

    pub fn name(self) -> (name: &'static str)
        ensures
            name@ == self.text(),
    {
        match self {
            Flag::Socket => "--socket",
            Flag::Format => "--format",
            Flag::Direction => "--direction",
            Flag::Type => "--type",
            Flag::Emsg => "--emsg",
            Flag::AppId => "--app-id",
            Flag::Changed => "--changed",
            Flag::File => "--file",
            Flag::Hex => "--hex",
            Flag::Config => "--config",
            Flag::IntervalMs => "--interval-ms",
        }
    }
}

/// Why the tool stops.
#[derive(Debug)]
pub enum ToolError<T> {
    /// Help was asked for, or a command is not complete.
    Usage,
    UnsupportedFormat(T),
    /// An option of the tool itself has no value.
    MissingOption(Flag),
    /// An option of a command has no value.
    MissingValue(Flag),
    InvalidPacketId(NumberError),
    InvalidLimit(NumberError),
    InvalidInterval(NumberError),
    InvalidDirection(T),
    UnknownCommand(T),
    UnknownCaptureCommand(T),
    UnknownSimulateOption(T),
    UnknownOfflineOption(T),
    UnknownFilter(T),
    UnknownFilterKey(T),
    /// A dump holds no byte.
    NoBytes,
    NoRuntimeDir,
    NoUid,
    /// The client answered something else than success.
    Refused(T),
    /// The client's answer is not JSON, and why.
    NotJson(T),
    NotAnArray,
}

impl View for ToolError<String> {
    type V = ToolError<Seq<char>>;

    open spec fn view(&self) -> ToolError<Seq<char>> {
        match *self {
            ToolError::Usage => ToolError::Usage,
            ToolError::UnsupportedFormat(text) => ToolError::UnsupportedFormat(text@),
            ToolError::MissingOption(flag) => ToolError::MissingOption(flag),
            ToolError::MissingValue(flag) => ToolError::MissingValue(flag),
            ToolError::InvalidPacketId(error) => ToolError::InvalidPacketId(error),
            ToolError::InvalidLimit(error) => ToolError::InvalidLimit(error),
            ToolError::InvalidInterval(error) => ToolError::InvalidInterval(error),
            ToolError::InvalidDirection(text) => ToolError::InvalidDirection(text@),
            ToolError::UnknownCommand(text) => ToolError::UnknownCommand(text@),
            ToolError::UnknownCaptureCommand(text) => ToolError::UnknownCaptureCommand(text@),
            ToolError::UnknownSimulateOption(text) => ToolError::UnknownSimulateOption(text@),
            ToolError::UnknownOfflineOption(text) => ToolError::UnknownOfflineOption(text@),
            ToolError::UnknownFilter(text) => ToolError::UnknownFilter(text@),
            ToolError::UnknownFilterKey(text) => ToolError::UnknownFilterKey(text@),
            ToolError::NoBytes => ToolError::NoBytes,
            ToolError::NoRuntimeDir => ToolError::NoRuntimeDir,
            ToolError::NoUid => ToolError::NoUid,
            ToolError::Refused(text) => ToolError::Refused(text@),
            ToolError::NotJson(text) => ToolError::NotJson(text@),
            ToolError::NotAnArray => ToolError::NotAnArray,
        }
    }
}

/// A word in quotes, and the usage below it.
pub open spec fn unknown_text(what: Seq<char>, word: Seq<char>) -> Seq<char> {
    what + quoted_of(word) + "\n"@ + USAGE@
}

/// What the tool prints about an error.
pub open spec fn error_text(error: ToolError<Seq<char>>) -> Seq<char> {
    match error {
        ToolError::Usage => USAGE@,
        ToolError::UnsupportedFormat(word) => unknown_text("unsupported format "@, word),
        ToolError::MissingOption(flag) => flag.text() + " requires a value\n"@ + USAGE@,
        ToolError::MissingValue(flag) => flag.text() + " requires a value"@,
        ToolError::InvalidPacketId(error) => "invalid packet id: "@ + error.text(),
        ToolError::InvalidLimit(error) => "invalid limit: "@ + error.text(),
        ToolError::InvalidInterval(error) => "invalid interval: "@ + error.text(),
        ToolError::InvalidDirection(word) => "invalid direction "@ + quoted_of(word),
        ToolError::UnknownCommand(word) => unknown_text("unknown command "@, word),
        ToolError::UnknownCaptureCommand(word) => unknown_text("unknown capture command "@, word),
        ToolError::UnknownSimulateOption(word) => unknown_text("unknown simulate option "@, word),
        ToolError::UnknownOfflineOption(word) => unknown_text("unknown offline option "@, word),
        ToolError::UnknownFilter(word) => unknown_text("unknown filter "@, word),
        ToolError::UnknownFilterKey(word) => "unknown filter key "@ + quoted_of(word),
        ToolError::NoBytes => "hex input did not contain any bytes"@,
        ToolError::NoRuntimeDir => "XDG_RUNTIME_DIR is not set"@,
        ToolError::NoUid => "could not derive uid from XDG_RUNTIME_DIR"@,
        ToolError::Refused(response) => response,
        ToolError::NotJson(error) => "parse JSON failed: "@ + error,
        ToolError::NotAnArray => "packet list did not return an array"@,
    }
}

fn unknown(what: &str, word: &String) -> (text: String)
    ensures
        text@ == unknown_text(what@, word@),
{
    let mut text: String = concat(what, quoted(word.as_str()).as_str());
    text.append("\n");
    text.append(USAGE);
    text
}

impl ToolError<String> {
    pub fn message(&self) -> (text: String)
        ensures
            text@ == error_text(self@),
    {
        match self {
            ToolError::Usage => USAGE.to_owned(),
            ToolError::UnsupportedFormat(word) => unknown("unsupported format ", word),
            ToolError::MissingOption(flag) => {
                let mut text: String = concat(flag.name(), " requires a value\n");
                text.append(USAGE);
                text
            },
            ToolError::MissingValue(flag) => concat(flag.name(), " requires a value"),
            ToolError::InvalidPacketId(error) => concat("invalid packet id: ", error.message()),
            ToolError::InvalidLimit(error) => concat("invalid limit: ", error.message()),
            ToolError::InvalidInterval(error) => concat("invalid interval: ", error.message()),
            ToolError::InvalidDirection(word) => concat(
                "invalid direction ",
                quoted(word.as_str()).as_str(),
            ),
            ToolError::UnknownCommand(word) => unknown("unknown command ", word),
            ToolError::UnknownCaptureCommand(word) => unknown("unknown capture command ", word),
            ToolError::UnknownSimulateOption(word) => unknown("unknown simulate option ", word),
            ToolError::UnknownOfflineOption(word) => unknown("unknown offline option ", word),
            ToolError::UnknownFilter(word) => unknown("unknown filter ", word),
            ToolError::UnknownFilterKey(word) => concat(
                "unknown filter key ",
                quoted(word.as_str()).as_str(),
            ),
            ToolError::NoBytes => "hex input did not contain any bytes".to_owned(),
            ToolError::NoRuntimeDir => "XDG_RUNTIME_DIR is not set".to_owned(),
            ToolError::NoUid => "could not derive uid from XDG_RUNTIME_DIR".to_owned(),
            ToolError::Refused(response) => response.clone(),
            ToolError::NotJson(error) => concat("parse JSON failed: ", error.as_str()),
            ToolError::NotAnArray => "packet list did not return an array".to_owned(),
        }
    }
}

/// Which packets a command is about.
pub struct Filters<T> {
    pub direction: Option<T>,
    pub packet_type: Option<T>,
    pub emsg: Option<T>,
    pub app_id: Option<T>,
    pub changed: Option<T>,
}

/// What a filter looks at.
#[derive(Clone, Copy, Debug, PartialEq, Eq, Structural)]
pub enum FilterField {
    Direction,
    Type,
    Emsg,
    App,
    Changed,
}

/// The value of a text that may be missing.
pub open spec fn text_option(text: Option<String>) -> Option<Seq<char>> {
    match text {
        Some(text) => Some(text@),
        None => None,
    }
}

impl FilterField {
    pub open spec fn spec_flag(self) -> Flag {
        match self {
            FilterField::Direction => Flag::Direction,
            FilterField::Type => Flag::Type,
            FilterField::Emsg => Flag::Emsg,
            FilterField::App => Flag::AppId,
            FilterField::Changed => Flag::Changed,
        }
    }

    fn flag(self) -> (flag: Flag)
        ensures
            flag == self.spec_flag(),
    {
        match self {
            FilterField::Direction => Flag::Direction,
            FilterField::Type => Flag::Type,
            FilterField::Emsg => Flag::Emsg,
            FilterField::App => Flag::AppId,
            FilterField::Changed => Flag::Changed,
        }
    }
}

impl<T> Filters<T> {
    /// No filter at all.
    pub open spec fn none() -> Filters<T> {
        Filters { direction: None, packet_type: None, emsg: None, app_id: None, changed: None }
    }

    /// The filters with one of them set.
    pub open spec fn with(self, field: FilterField, value: T) -> Filters<T> {
        match field {
            FilterField::Direction => Filters { direction: Some(value), ..self },
            FilterField::Type => Filters { packet_type: Some(value), ..self },
            FilterField::Emsg => Filters { emsg: Some(value), ..self },
            FilterField::App => Filters { app_id: Some(value), ..self },
            FilterField::Changed => Filters { changed: Some(value), ..self },
        }
    }

    /// Filters that let everything through.
    pub fn new() -> (filters: Filters<T>)
        ensures
            filters == Filters::<T>::none(),
    {
        Filters { direction: None, packet_type: None, emsg: None, app_id: None, changed: None }
    }

    fn put(&mut self, field: FilterField, value: T)
        ensures
            *final(self) == old(self).with(field, value),
    {
        match field {
            FilterField::Direction => {
                self.direction = Some(value);
            },
            FilterField::Type => {
                self.packet_type = Some(value);
            },
            FilterField::Emsg => {
                self.emsg = Some(value);
            },
            FilterField::App => {
                self.app_id = Some(value);
            },
            FilterField::Changed => {
                self.changed = Some(value);
            },
        }
    }
}

impl View for Filters<String> {
    type V = Filters<Seq<char>>;

    open spec fn view(&self) -> Filters<Seq<char>> {
        Filters {
            direction: text_option(self.direction),
            packet_type: text_option(self.packet_type),
            emsg: text_option(self.emsg),
            app_id: text_option(self.app_id),
            changed: text_option(self.changed),
        }
    }
}

/// Where an offline command takes its packet from.
pub enum Input<T> {
    File(T),
    Hex(T),
    StdinHex,
}

impl View for Input<String> {
    type V = Input<Seq<char>>;

    open spec fn view(&self) -> Input<Seq<char>> {
        match *self {
            Input::File(path) => Input::File(path@),
            Input::Hex(hex) => Input::Hex(hex@),
            Input::StdinHex => Input::StdinHex,
        }
    }
}

/// What is to be done about the capture.
pub enum CaptureCommand<T> {
    Status,
    On { raw: bool, filters: Filters<T> },
    Off,
    Clear,
    Limit(usize),
    FilterClear,
}

impl View for CaptureCommand<String> {
    type V = CaptureCommand<Seq<char>>;

    open spec fn view(&self) -> CaptureCommand<Seq<char>> {
        match *self {
            CaptureCommand::Status => CaptureCommand::Status,
            CaptureCommand::On { raw, filters } => CaptureCommand::On { raw, filters: filters@ },
            CaptureCommand::Off => CaptureCommand::Off,
            CaptureCommand::Clear => CaptureCommand::Clear,
            CaptureCommand::Limit(limit) => CaptureCommand::Limit(limit),
            CaptureCommand::FilterClear => CaptureCommand::FilterClear,
        }
    }
}

/// What the tool is asked to do.
pub enum Command<T> {
    Capture(CaptureCommand<T>),
    List(Filters<T>),
    Show(u64),
    Save { id: u64, path: T },
    Watch { filters: Filters<T>, interval_ms: u64 },
    Decode { input: Input<T>, direction: PacketDirection },
    Explain { input: Input<T>, direction: PacketDirection },
    Simulate { input: Input<T>, direction: PacketDirection, config: Option<T> },
}

impl View for Command<String> {
    type V = Command<Seq<char>>;

    open spec fn view(&self) -> Command<Seq<char>> {
        match *self {
            Command::Capture(capture) => Command::Capture(capture@),
            Command::List(filters) => Command::List(filters@),
            Command::Show(id) => Command::Show(id),
            Command::Save { id, path } => Command::Save { id, path: path@ },
            Command::Watch { filters, interval_ms } => Command::Watch {
                filters: filters@,
                interval_ms,
            },
            Command::Decode { input, direction } => Command::Decode { input: input@, direction },
            Command::Explain { input, direction } => Command::Explain { input: input@, direction },
            Command::Simulate { input, direction, config } => Command::Simulate {
                input: input@,
                direction,
                config: text_option(config),
            },
        }
    }
}

/// The arguments of the tool.
pub struct Args<T> {
    pub socket: Option<T>,
    pub format: OutputFormat,
    pub command: Command<T>,
}

impl View for Args<String> {
    type V = Args<Seq<char>>;

    open spec fn view(&self) -> Args<Seq<char>> {
        Args { socket: text_option(self.socket), format: self.format, command: self.command@ }
    }
}

/// The direction that a word names.
pub open spec fn direction_of(word: Seq<char>) -> Option<PacketDirection> {
    if word == "send"@ {
        Some(PacketDirection::Send)
    } else if word == "recv"@ {
        Some(PacketDirection::Recv)
    } else {
        None
    }
}

fn direction_named(word: &str) -> (direction: Option<PacketDirection>)
    ensures
        direction == direction_of(word@),
{
    if text_eq(word, "send") {
        Some(PacketDirection::Send)
    } else if text_eq(word, "recv") {
        Some(PacketDirection::Recv)
    } else {
        None
    }
}

pub fn parse_direction(value: &str) -> (direction: Result<PacketDirection, ToolError<String>>)
    ensures
        match direction {
            Ok(direction) => direction_of(value@) == Some(direction),
            Err(error) => direction_of(value@) is None && error@ == (ToolError::InvalidDirection(
                value@,
            )),
        },
{
    match direction_named(value) {
        Some(direction) => Ok(direction),
        None => Err(ToolError::InvalidDirection(value.to_owned())),
    }
}

/// The filter that an option sets.
pub open spec fn flag_field(word: Seq<char>) -> Option<FilterField> {
    if word == "--direction"@ {
        Some(FilterField::Direction)
    } else if word == "--type"@ {
        Some(FilterField::Type)
    } else if word == "--emsg"@ {
        Some(FilterField::Emsg)
    } else if word == "--app-id"@ || word == "--app"@ {
        Some(FilterField::App)
    } else if word == "--changed"@ || word == "--change"@ {
        Some(FilterField::Changed)
    } else {
        None
    }
}

fn field_of_flag(word: &str) -> (field: Option<FilterField>)
    ensures
        field == flag_field(word@),
{
    if text_eq(word, "--direction") {
        Some(FilterField::Direction)
    } else if text_eq(word, "--type") {
        Some(FilterField::Type)
    } else if text_eq(word, "--emsg") {
        Some(FilterField::Emsg)
    } else if text_eq(word, "--app-id") || text_eq(word, "--app") {
        Some(FilterField::App)
    } else if text_eq(word, "--changed") || text_eq(word, "--change") {
        Some(FilterField::Changed)
    } else {
        None
    }
}

/// The filter that a key in front of an equals sign sets.
pub open spec fn key_field(word: Seq<char>) -> Option<FilterField> {
    if word == "direction"@ || word == "dir"@ {
        Some(FilterField::Direction)
    } else if word == "type"@ {
        Some(FilterField::Type)
    } else if word == "emsg"@ {
        Some(FilterField::Emsg)
    } else if word == "app"@ || word == "app_id"@ || word == "appid"@ {
        Some(FilterField::App)
    } else if word == "changed"@ || word == "change"@ {
        Some(FilterField::Changed)
    } else {
        None
    }
}

/// Sets the filter that a key names.
pub fn set_filter(filters: &mut Filters<String>, key: &str, value: &str) -> (verdict: Result<
    (),
    ToolError<String>,
>)
    ensures
        match verdict {
            Ok(_) => key_field(key@) is Some && final(filters)@ == old(filters)@.with(
                key_field(key@)->0,
                value@,
            ),
            Err(error) => key_field(key@) is None && *final(filters) == *old(filters) && error@
                == (ToolError::UnknownFilterKey(key@)),
        },
{
    let field: FilterField = if text_eq(key, "direction") || text_eq(key, "dir") {
        FilterField::Direction
    } else if text_eq(key, "type") {
        FilterField::Type
    } else if text_eq(key, "emsg") {
        FilterField::Emsg
    } else if text_eq(key, "app") || text_eq(key, "app_id") || text_eq(key, "appid") {
        FilterField::App
    } else if text_eq(key, "changed") || text_eq(key, "change") {
        FilterField::Changed
    } else {
        return Err(ToolError::UnknownFilterKey(key.to_owned()));
    };
    filters.put(field, value.to_owned());
    Ok(())
}

/// A word at its first equals sign.
pub open spec fn equals_at(word: Seq<char>) -> int {
    first_at(word, |ch: char| ch == '=')
}

/// The filters that arguments from `at` on add to `filters`.
pub open spec fn filters_from(
    args: Seq<Seq<char>>,
    at: int,
    filters: Filters<Seq<char>>,
) -> Result<Filters<Seq<char>>, ToolError<Seq<char>>>
    decreases args.len() - at,
{
    if at < 0 || at >= args.len() {
        Ok(filters)
    } else {
        let word = args[at];
        match flag_field(word) {
            Some(field) => if at + 1 < args.len() {
                filters_from(args, at + 2, filters.with(field, args[at + 1]))
            } else {
                Err(ToolError::MissingValue(field.spec_flag()))
            },
            None => if equals_at(word) < word.len() {
                match key_field(word.take(equals_at(word))) {
                    Some(field) => filters_from(
                        args,
                        at + 1,
                        filters.with(field, word.skip(equals_at(word) + 1)),
                    ),
                    None => Err(ToolError::UnknownFilterKey(word.take(equals_at(word)))),
                }
            } else {
                Err(ToolError::UnknownFilter(word))
            },
        }
    }
}

/// The two sides of a word's first equals sign.
fn split_at_equals(word: &str) -> (sides: Option<(String, String)>)
    ensures
        sides is Some <==> equals_at(word@) < word@.len(),
        sides matches Some((key, value)) ==> key@ == word@.take(equals_at(word@)) && value@
            == word@.skip(equals_at(word@) + 1),
{
    let ghost stop = |ch: char| ch == '=';
    let chars: Vec<char> = chars_of(word);
    let size: usize = chars.len();
    let mut at: usize = 0;
    while at < size && chars[at] != '='
        invariant
            at <= size == chars@.len(),
            forall|i: int| 0 <= i < at ==> #[trigger] chars@[i] != '=',
        decreases size - at,
    {
        at = at + 1;
    }
    proof {
        lemma_first_is(chars@, stop, at as int);
    }
    if at == size {
        return None;
    }
    let key: Vec<char> = part_of(&chars, 0, at);
    let value: Vec<char> = part_of(&chars, at + 1, size);
    assert(key@ =~= word@.take(at as int));
    assert(value@ =~= word@.skip(at + 1));
    Some((text_of(key.as_slice()), text_of(value.as_slice())))
}

/// Reads filters: options with a value, or a key and a value around an equals sign.
pub fn parse_filters(args: &[String]) -> (filters: Result<Filters<String>, ToolError<String>>)
    ensures
        match filters {
            Ok(filters) => filters_from(texts_of(args@), 0, Filters::none()) == Ok::<
                Filters<Seq<char>>,
                ToolError<Seq<char>>,
            >(filters@),
            Err(error) => filters_from(texts_of(args@), 0, Filters::none()) == Err::<
                Filters<Seq<char>>,
                ToolError<Seq<char>>,
            >(error@),
        },
{
    let ghost all = texts_of(args@);
    let mut filters: Filters<String> = Filters::new();
    let size: usize = args.len();
    let mut at: usize = 0;
    while at < size
        invariant
            at <= size == args@.len(),
            all == texts_of(args@),
            filters_from(all, 0, Filters::none()) == filters_from(all, at as int, filters@),
        decreases size - at,
    {
        let word: &str = args[at].as_str();
        assert(all[at as int] == word@);
        match field_of_flag(word) {
            Some(field) => {
                if size - at < 2 {
                    return Err(ToolError::MissingValue(field.flag()));
                }
                assert(all[at + 1] == args@[at + 1]@);
                let ghost before = filters@;
                filters.put(field, args[at + 1].clone());
                assert(filters@ == before.with(field, all[at + 1]));
                at = at + 2;
            },
            None => {
                match split_at_equals(word) {
                    Some((key, value)) => {
                        match set_filter(&mut filters, key.as_str(), value.as_str()) {
                            Ok(_) => {},
                            Err(error) => {
                                return Err(error);
                            },
                        }
                        at = at + 1;
                    },
                    None => {
                        return Err(ToolError::UnknownFilter(args[at].clone()));
                    },
                }
            },
        }
    }
    Ok(filters)
}

/// The source and the direction that arguments from `at` on leave an offline command with.
pub open spec fn offline_from(
    args: Seq<Seq<char>>,
    at: int,
    input: Input<Seq<char>>,
    direction: PacketDirection,
) -> Result<(Input<Seq<char>>, PacketDirection), ToolError<Seq<char>>>
    decreases args.len() - at,
{
    if at < 0 || at >= args.len() {
        Ok((input, direction))
    } else if args[at] == "--file"@ {
        if at + 1 < args.len() {
            offline_from(args, at + 2, Input::File(args[at + 1]), direction)
        } else {
            Err(ToolError::MissingValue(Flag::File))
        }
    } else if args[at] == "--hex"@ {
        if at + 1 < args.len() {
            offline_from(args, at + 2, Input::Hex(args[at + 1]), direction)
        } else {
            Err(ToolError::MissingValue(Flag::Hex))
        }
    } else if args[at] == "--direction"@ {
        if at + 1 < args.len() {
            match direction_of(args[at + 1]) {
                Some(named) => offline_from(args, at + 2, input, named),
                None => Err(ToolError::InvalidDirection(args[at + 1])),
            }
        } else {
            Err(ToolError::MissingValue(Flag::Direction))
        }
    } else {
        Err(ToolError::UnknownOfflineOption(args[at]))
    }
}

/// Reads where an offline command takes its packet from and which way the packet goes.
pub fn parse_offline_args(args: &[String], default_direction: PacketDirection) -> (offline: Result<
    (Input<String>, PacketDirection),
    ToolError<String>,
>)
    ensures
        match offline {
            Ok((input, direction)) => offline_from(
                texts_of(args@),
                0,
                Input::StdinHex,
                default_direction,
            ) == Ok::<(Input<Seq<char>>, PacketDirection), ToolError<Seq<char>>>(
                (input@, direction),
            ),
            Err(error) => offline_from(texts_of(args@), 0, Input::StdinHex, default_direction)
                == Err::<(Input<Seq<char>>, PacketDirection), ToolError<Seq<char>>>(error@),
        },
{
    let ghost all = texts_of(args@);
    let mut input: Input<String> = Input::StdinHex;
    let mut direction: PacketDirection = default_direction;
    let size: usize = args.len();
    let mut at: usize = 0;
    while at < size
        invariant
            at <= size == args@.len(),
            all == texts_of(args@),
            offline_from(all, 0, Input::StdinHex, default_direction) == offline_from(
                all,
                at as int,
                input@,
                direction,
            ),
        decreases size - at,
    {
        let word: &str = args[at].as_str();
        assert(all[at as int] == word@);
        let flag: Flag = if text_eq(word, "--file") {
            Flag::File
        } else if text_eq(word, "--hex") {
            Flag::Hex
        } else if text_eq(word, "--direction") {
            Flag::Direction
        } else {
            return Err(ToolError::UnknownOfflineOption(args[at].clone()));
        };
        if size - at < 2 {
            return Err(ToolError::MissingValue(flag));
        }
        assert(all[at + 1] == args@[at + 1]@);
        match flag {
            Flag::File => {
                input = Input::File(args[at + 1].clone());
            },
            Flag::Hex => {
                input = Input::Hex(args[at + 1].clone());
            },
            _ => {
                match parse_direction(args[at + 1].as_str()) {
                    Ok(named) => {
                        direction = named;
                    },
                    Err(error) => {
                        return Err(error);
                    },
                }
            },
        }
        at = at + 2;
    }
    Ok((input, direction))
}

/// The source and the configuration that arguments from `at` on leave a simulation with.
pub open spec fn simulate_from(
    args: Seq<Seq<char>>,
    at: int,
    input: Input<Seq<char>>,
    config: Option<Seq<char>>,
) -> Result<(Input<Seq<char>>, Option<Seq<char>>), ToolError<Seq<char>>>
    decreases args.len() - at,
{
    if at < 0 || at >= args.len() {
        Ok((input, config))
    } else if args[at] == "--file"@ {
        if at + 1 < args.len() {
            simulate_from(args, at + 2, Input::File(args[at + 1]), config)
        } else {
            Err(ToolError::MissingValue(Flag::File))
        }
    } else if args[at] == "--hex"@ {
        if at + 1 < args.len() {
            simulate_from(args, at + 2, Input::Hex(args[at + 1]), config)
        } else {
            Err(ToolError::MissingValue(Flag::Hex))
        }
    } else if args[at] == "--config"@ {
        if at + 1 < args.len() {
            simulate_from(args, at + 2, input, Some(args[at + 1]))
        } else {
            Err(ToolError::MissingValue(Flag::Config))
        }
    } else {
        Err(ToolError::UnknownSimulateOption(args[at]))
    }
}

/// The direction that arguments begin with, and how many of them that takes.
pub open spec fn leading_direction(args: Seq<Seq<char>>, usual: PacketDirection) -> (
    PacketDirection,
    int,
) {
    if args.len() > 0 && direction_of(args[0]) is Some {
        (direction_of(args[0])->0, 1)
    } else {
        (usual, 0)
    }
}

/// The simulation that arguments ask for.
pub open spec fn simulate_of(args: Seq<Seq<char>>) -> Result<
    Command<Seq<char>>,
    ToolError<Seq<char>>,
> {
    let (direction, taken) = leading_direction(args, PacketDirection::Send);
    match simulate_from(args.skip(taken), 0, Input::StdinHex, None) {
        Ok((input, config)) => Ok(Command::Simulate { input, direction, config }),
        Err(error) => Err(error),
    }
}

fn take_direction(args: &[String], usual: PacketDirection) -> (leading: (PacketDirection, usize))
    ensures
        leading.0 == leading_direction(texts_of(args@), usual).0,
        leading.1 == leading_direction(texts_of(args@), usual).1,
        leading.1 <= args@.len(),
{
    if args.len() > 0 {
        assert(texts_of(args@)[0] == args@[0]@);
        match direction_named(args[0].as_str()) {
            Some(direction) => {
                return (direction, 1);
            },
            None => {},
        }
    }
    (usual, 0)
}

/// The arguments behind the first few.
fn behind(args: &[String], taken: usize) -> (rest: &[String])
    requires
        taken <= args@.len(),
    ensures
        rest@ == args@.skip(taken as int),
        texts_of(rest@) == texts_of(args@).skip(taken as int),
{
    let rest: &[String] = slice_subrange(args, taken, args.len());
    assert(rest@ =~= args@.skip(taken as int));
    assert(texts_of(rest@) =~= texts_of(args@).skip(taken as int));
    rest
}

pub fn parse_simulate(args: &[String]) -> (command: Result<Command<String>, ToolError<String>>)
    ensures
        match command {
            Ok(command) => simulate_of(texts_of(args@)) == Ok::<
                Command<Seq<char>>,
                ToolError<Seq<char>>,
            >(command@),
            Err(error) => simulate_of(texts_of(args@)) == Err::<
                Command<Seq<char>>,
                ToolError<Seq<char>>,
            >(error@),
        },
{
    let (direction, taken): (PacketDirection, usize) = take_direction(args, PacketDirection::Send);
    let rest: &[String] = behind(args, taken);
    let ghost all = texts_of(rest@);
    let mut input: Input<String> = Input::StdinHex;
    let mut config: Option<String> = None;
    let size: usize = rest.len();
    let mut at: usize = 0;
    while at < size
        invariant
            at <= size == rest@.len(),
            all == texts_of(rest@),
            all == texts_of(args@).skip(taken as int),
            direction == leading_direction(texts_of(args@), PacketDirection::Send).0,
            taken == leading_direction(texts_of(args@), PacketDirection::Send).1,
            simulate_from(all, 0, Input::StdinHex, None) == simulate_from(
                all,
                at as int,
                input@,
                text_option(config),
            ),
        decreases size - at,
    {
        let word: &str = rest[at].as_str();
        assert(all[at as int] == word@);
        let flag: Flag = if text_eq(word, "--file") {
            Flag::File
        } else if text_eq(word, "--hex") {
            Flag::Hex
        } else if text_eq(word, "--config") {
            Flag::Config
        } else {
            return Err(ToolError::UnknownSimulateOption(rest[at].clone()));
        };
        if size - at < 2 {
            return Err(ToolError::MissingValue(flag));
        }
        assert(all[at + 1] == rest@[at + 1]@);
        match flag {
            Flag::File => {
                input = Input::File(rest[at + 1].clone());
            },
            Flag::Hex => {
                input = Input::Hex(rest[at + 1].clone());
            },
            _ => {
                config = Some(rest[at + 1].clone());
            },
        }
        at = at + 2;
    }
    Ok(Command::Simulate { input, direction, config })
}

/// Whether a word says how much of a packet is captured.
pub open spec fn is_raw_word(word: Seq<char>) -> bool {
    word == "--raw"@ || word == "raw"@ || word == "summary"@
}

/// Whether the words ask for whole packets: the last one that says so decides.
pub open spec fn wants_raw(words: Seq<Seq<char>>) -> bool
    decreases words.len(),
{
    if words.len() == 0 {
        false
    } else if is_raw_word(words.last()) {
        words.last() != "summary"@
    } else {
        wants_raw(words.drop_last())
    }
}

/// The words that are filters.
pub open spec fn filter_words(words: Seq<Seq<char>>) -> Seq<Seq<char>>
    decreases words.len(),
{
    if words.len() == 0 {
        Seq::empty()
    } else if is_raw_word(words.last()) {
        filter_words(words.drop_last())
    } else {
        filter_words(words.drop_last()).push(words.last())
    }
}

/// What arguments ask of the capture.
pub open spec fn capture_of(args: Seq<Seq<char>>) -> Result<
    CaptureCommand<Seq<char>>,
    ToolError<Seq<char>>,
> {
    if args.len() == 0 || args[0] == "status"@ {
        Ok(CaptureCommand::Status)
    } else if args[0] == "off"@ {
        Ok(CaptureCommand::Off)
    } else if args[0] == "clear"@ {
        Ok(CaptureCommand::Clear)
    } else if args[0] == "filter-clear"@ {
        Ok(CaptureCommand::FilterClear)
    } else if args[0] == "limit"@ {
        if args.len() < 2 {
            Err(ToolError::Usage)
        } else {
            match number_of(args[1], usize::MAX as nat) {
                Ok(limit) => Ok(CaptureCommand::Limit(limit as usize)),
                Err(error) => Err(ToolError::InvalidLimit(error)),
            }
        }
    } else if args[0] == "on"@ {
        match filters_from(filter_words(args.skip(1)), 0, Filters::none()) {
            Ok(filters) => Ok(CaptureCommand::On { raw: wants_raw(args.skip(1)), filters }),
            Err(error) => Err(error),
        }
    } else {
        Err(ToolError::UnknownCaptureCommand(args[0]))
    }
}

fn parse_capture_on(words: &[String]) -> (capture: Result<CaptureCommand<String>, ToolError<String>>)
    ensures
        match capture {
            Ok(capture) => capture is On && capture@->raw == wants_raw(texts_of(words@))
                && filters_from(filter_words(texts_of(words@)), 0, Filters::none()) == Ok::<
                Filters<Seq<char>>,
                ToolError<Seq<char>>,
            >(capture@->filters),
            Err(error) => filters_from(filter_words(texts_of(words@)), 0, Filters::none()) == Err::<
                Filters<Seq<char>>,
                ToolError<Seq<char>>,
            >(error@),
        },
{
    let ghost all = texts_of(words@);
    let mut raw: bool = false;
    let mut filter_args: Vec<String> = Vec::new();
    let mut i: usize = 0;
    assert(all.take(0) =~= Seq::empty());
    assert(texts_of(filter_args@) =~= Seq::empty());
    while i < words.len()
        invariant
            i <= words@.len(),
            all == texts_of(words@),
            raw == wants_raw(all.take(i as int)),
            texts_of(filter_args@) == filter_words(all.take(i as int)),
        decreases words@.len() - i,
    {
        assert(all.take(i + 1).drop_last() =~= all.take(i as int));
        assert(all.take(i + 1).last() == words@[i as int]@);
        let word: &str = words[i].as_str();
        if text_eq(word, "--raw") || text_eq(word, "raw") {
            proof {
                reveal_strlit("--raw");
                reveal_strlit("raw");
                reveal_strlit("summary");
            }
            raw = true;
        } else if text_eq(word, "summary") {
            raw = false;
        } else {
            let ghost before = texts_of(filter_args@);
            filter_args.push(words[i].clone());
            assert(texts_of(filter_args@) =~= before.push(words@[i as int]@));
        }
        i = i + 1;
    }
    assert(all.take(i as int) =~= all);
    match parse_filters(filter_args.as_slice()) {
        Ok(filters) => Ok(CaptureCommand::On { raw, filters }),
        Err(error) => Err(error),
    }
}

pub fn parse_capture(args: &[String]) -> (capture: Result<CaptureCommand<String>, ToolError<String>>)
    ensures
        match capture {
            Ok(capture) => capture_of(texts_of(args@)) == Ok::<
                CaptureCommand<Seq<char>>,
                ToolError<Seq<char>>,
            >(capture@),
            Err(error) => capture_of(texts_of(args@)) == Err::<
                CaptureCommand<Seq<char>>,
                ToolError<Seq<char>>,
            >(error@),
        },
{
    if args.len() == 0 {
        return Ok(CaptureCommand::Status);
    }
    assert(texts_of(args@)[0] == args@[0]@);
    let word: &str = args[0].as_str();
    if text_eq(word, "status") {
        Ok(CaptureCommand::Status)
    } else if text_eq(word, "off") {
        Ok(CaptureCommand::Off)
    } else if text_eq(word, "clear") {
        Ok(CaptureCommand::Clear)
    } else if text_eq(word, "filter-clear") {
        Ok(CaptureCommand::FilterClear)
    } else if text_eq(word, "limit") {
        if args.len() < 2 {
            return Err(ToolError::Usage);
        }
        assert(texts_of(args@)[1] == args@[1]@);
        match parse_number(args[1].as_str(), usize::MAX as u64) {
            Ok(limit) => Ok(CaptureCommand::Limit(limit as usize)),
            Err(error) => Err(ToolError::InvalidLimit(error)),
        }
    } else if text_eq(word, "on") {
        parse_capture_on(behind(args, 1))
    } else {
        Err(ToolError::UnknownCaptureCommand(args[0].clone()))
    }
}

/// The interval that arguments from `at` on leave a watch with, and the words that are
/// filters.
pub open spec fn watch_from(
    args: Seq<Seq<char>>,
    at: int,
    interval_ms: u64,
    words: Seq<Seq<char>>,
) -> Result<(u64, Seq<Seq<char>>), ToolError<Seq<char>>>
    decreases args.len() - at,
{
    if at < 0 || at >= args.len() {
        Ok((interval_ms, words))
    } else if args[at] == "--interval-ms"@ {
        if at + 1 < args.len() {
            match number_of(args[at + 1], u64::MAX as nat) {
                Ok(number) => watch_from(args, at + 2, number as u64, words),
                Err(error) => Err(ToolError::InvalidInterval(error)),
            }
        } else {
            Err(ToolError::MissingValue(Flag::IntervalMs))
        }
    } else {
        watch_from(args, at + 1, interval_ms, words.push(args[at]))
    }
}

/// The watch that arguments ask for.
pub open spec fn watch_of(args: Seq<Seq<char>>) -> Result<
    Command<Seq<char>>,
    ToolError<Seq<char>>,
> {
    match watch_from(args, 0, DEFAULT_INTERVAL_MS, Seq::empty()) {
        Ok((interval_ms, words)) => match filters_from(words, 0, Filters::none()) {
            Ok(filters) => Ok(Command::Watch { filters, interval_ms }),
            Err(error) => Err(error),
        },
        Err(error) => Err(error),
    }
}

pub fn parse_watch(args: &[String]) -> (command: Result<Command<String>, ToolError<String>>)
    ensures
        match command {
            Ok(command) => watch_of(texts_of(args@)) == Ok::<
                Command<Seq<char>>,
                ToolError<Seq<char>>,
            >(command@),
            Err(error) => watch_of(texts_of(args@)) == Err::<
                Command<Seq<char>>,
                ToolError<Seq<char>>,
            >(error@),
        },
{
    let ghost all = texts_of(args@);
    let mut interval_ms: u64 = DEFAULT_INTERVAL_MS;
    let mut filter_args: Vec<String> = Vec::new();
    let size: usize = args.len();
    let mut at: usize = 0;
    assert(texts_of(filter_args@) =~= Seq::empty());
    while at < size
        invariant
            at <= size == args@.len(),
            all == texts_of(args@),
            watch_from(all, 0, DEFAULT_INTERVAL_MS, Seq::empty()) == watch_from(
                all,
                at as int,
                interval_ms,
                texts_of(filter_args@),
            ),
        decreases size - at,
    {
        assert(all[at as int] == args@[at as int]@);
        if text_eq(args[at].as_str(), "--interval-ms") {
            if size - at < 2 {
                return Err(ToolError::MissingValue(Flag::IntervalMs));
            }
            assert(all[at + 1] == args@[at + 1]@);
            match parse_number(args[at + 1].as_str(), u64::MAX) {
                Ok(number) => {
                    interval_ms = number;
                },
                Err(error) => {
                    return Err(ToolError::InvalidInterval(error));
                },
            }
            at = at + 2;
        } else {
            let ghost before = texts_of(filter_args@);
            filter_args.push(args[at].clone());
            assert(texts_of(filter_args@) =~= before.push(args@[at as int]@));
            at = at + 1;
        }
    }
    match parse_filters(filter_args.as_slice()) {
        Ok(filters) => Ok(Command::Watch { filters, interval_ms }),
        Err(error) => Err(error),
    }
}

/// The packet that the second word names.
pub open spec fn packet_id_of(args: Seq<Seq<char>>) -> Result<u64, ToolError<Seq<char>>> {
    if args.len() < 2 {
        Err(ToolError::Usage)
    } else {
        match number_of(args[1], u64::MAX as nat) {
            Ok(id) => Ok(id as u64),
            Err(error) => Err(ToolError::InvalidPacketId(error)),
        }
    }
}

fn packet_id(args: &[String]) -> (id: Result<u64, ToolError<String>>)
    ensures
        match id {
            Ok(id) => packet_id_of(texts_of(args@)) == Ok::<u64, ToolError<Seq<char>>>(id),
            Err(error) => packet_id_of(texts_of(args@)) == Err::<u64, ToolError<Seq<char>>>(error@),
        },
{
    if args.len() < 2 {
        return Err(ToolError::Usage);
    }
    assert(texts_of(args@)[1] == args@[1]@);
    match parse_number(args[1].as_str(), u64::MAX) {
        Ok(id) => Ok(id),
        Err(error) => Err(ToolError::InvalidPacketId(error)),
    }
}

/// The command that arguments ask for. An explanation goes by the direction in front; one
/// among its options is read and passed over.
pub open spec fn command_of(args: Seq<Seq<char>>) -> Result<
    Command<Seq<char>>,
    ToolError<Seq<char>>,
> {
    let rest = args.skip(1);
    if args[0] == "capture"@ {
        match capture_of(rest) {
            Ok(capture) => Ok(Command::Capture(capture)),
            Err(error) => Err(error),
        }
    } else if args[0] == "list"@ {
        match filters_from(rest, 0, Filters::none()) {
            Ok(filters) => Ok(Command::List(filters)),
            Err(error) => Err(error),
        }
    } else if args[0] == "show"@ {
        match packet_id_of(args) {
            Ok(id) => Ok(Command::Show(id)),
            Err(error) => Err(error),
        }
    } else if args[0] == "save"@ {
        match packet_id_of(args) {
            Ok(id) => if args.len() < 3 {
                Err(ToolError::Usage)
            } else {
                Ok(Command::Save { id, path: args[2] })
            },
            Err(error) => Err(error),
        }
    } else if args[0] == "watch"@ {
        watch_of(rest)
    } else if args[0] == "decode"@ {
        match offline_from(rest, 0, Input::StdinHex, PacketDirection::Recv) {
            Ok((input, direction)) => Ok(Command::Decode { input, direction }),
            Err(error) => Err(error),
        }
    } else if args[0] == "explain"@ {
        let (direction, taken) = leading_direction(rest, PacketDirection::Recv);
        match offline_from(rest.skip(taken), 0, Input::StdinHex, direction) {
            Ok((input, _)) => Ok(Command::Explain { input, direction }),
            Err(error) => Err(error),
        }
    } else if args[0] == "simulate"@ {
        simulate_of(rest)
    } else {
        Err(ToolError::UnknownCommand(args[0]))
    }
}

pub fn parse_command(args: &[String]) -> (command: Result<Command<String>, ToolError<String>>)
    requires
        args@.len() > 0,
    ensures
        match command {
            Ok(command) => command_of(texts_of(args@)) == Ok::<
                Command<Seq<char>>,
                ToolError<Seq<char>>,
            >(command@),
            Err(error) => command_of(texts_of(args@)) == Err::<
                Command<Seq<char>>,
                ToolError<Seq<char>>,
            >(error@),
        },
{
    let rest: &[String] = behind(args, 1);
    assert(texts_of(args@)[0] == args@[0]@);
    let word: &str = args[0].as_str();
    if text_eq(word, "capture") {
        match parse_capture(rest) {
            Ok(capture) => Ok(Command::Capture(capture)),
            Err(error) => Err(error),
        }
    } else if text_eq(word, "list") {
        match parse_filters(rest) {
            Ok(filters) => Ok(Command::List(filters)),
            Err(error) => Err(error),
        }
    } else if text_eq(word, "show") {
        match packet_id(args) {
            Ok(id) => Ok(Command::Show(id)),
            Err(error) => Err(error),
        }
    } else if text_eq(word, "save") {
        match packet_id(args) {
            Ok(id) => {
                if args.len() < 3 {
                    return Err(ToolError::Usage);
                }
                assert(texts_of(args@)[2] == args@[2]@);
                Ok(Command::Save { id, path: args[2].clone() })
            },
            Err(error) => Err(error),
        }
    } else if text_eq(word, "watch") {
        parse_watch(rest)
    } else if text_eq(word, "decode") {
        match parse_offline_args(rest, PacketDirection::Recv) {
            Ok((input, direction)) => Ok(Command::Decode { input, direction }),
            Err(error) => Err(error),
        }
    } else if text_eq(word, "explain") {
        let (direction, taken): (PacketDirection, usize) = take_direction(
            rest,
            PacketDirection::Recv,
        );
        match parse_offline_args(behind(rest, taken), direction) {
            Ok((input, _)) => Ok(Command::Explain { input, direction }),
            Err(error) => Err(error),
        }
    } else if text_eq(word, "simulate") {
        parse_simulate(rest)
    } else {
        Err(ToolError::UnknownCommand(args[0].clone()))
    }
}

/// What the tool's arguments from `at` on mean.
pub open spec fn args_from(
    args: Seq<Seq<char>>,
    at: int,
    socket: Option<Seq<char>>,
    format: OutputFormat,
) -> Result<Args<Seq<char>>, ToolError<Seq<char>>>
    decreases args.len() - at,
{
    if at < 0 || at >= args.len() {
        Err(ToolError::Usage)
    } else if args[at] == "--socket"@ {
        if at + 1 < args.len() {
            args_from(args, at + 2, Some(args[at + 1]), format)
        } else {
            Err(ToolError::MissingOption(Flag::Socket))
        }
    } else if args[at] == "--format"@ {
        if at + 1 < args.len() {
            if args[at + 1] == "text"@ {
                args_from(args, at + 2, socket, OutputFormat::Text)
            } else if args[at + 1] == "json"@ {
                args_from(args, at + 2, socket, OutputFormat::Json)
            } else {
                Err(ToolError::UnsupportedFormat(args[at + 1]))
            }
        } else {
            Err(ToolError::MissingOption(Flag::Format))
        }
    } else if args[at] == "-h"@ || args[at] == "--help"@ {
        Err(ToolError::Usage)
    } else {
        match command_of(args.skip(at)) {
            Ok(command) => Ok(Args { socket, format, command }),
            Err(error) => Err(error),
        }
    }
}

impl Args<String> {
    /// Reads the arguments: options of the tool itself, then a command with its own.
    pub fn parse(args: &[String]) -> (parsed: Result<Args<String>, ToolError<String>>)
        ensures
            match parsed {
                Ok(parsed) => args_from(texts_of(args@), 0, None, OutputFormat::Text) == Ok::<
                    Args<Seq<char>>,
                    ToolError<Seq<char>>,
                >(parsed@),
                Err(error) => args_from(texts_of(args@), 0, None, OutputFormat::Text) == Err::<
                    Args<Seq<char>>,
                    ToolError<Seq<char>>,
                >(error@),
            },
    {
        let ghost all = texts_of(args@);
        let mut socket: Option<String> = None;
        let mut format: OutputFormat = OutputFormat::Text;
        let size: usize = args.len();
        let mut at: usize = 0;
        while at < size
            invariant
                at <= size == args@.len(),
                all == texts_of(args@),
                args_from(all, 0, None, OutputFormat::Text) == args_from(
                    all,
                    at as int,
                    text_option(socket),
                    format,
                ),
            decreases size - at,
        {
            let word: &str = args[at].as_str();
            assert(all[at as int] == word@);
            if text_eq(word, "--socket") {
                if size - at < 2 {
                    return Err(ToolError::MissingOption(Flag::Socket));
                }
                assert(all[at + 1] == args@[at + 1]@);
                socket = Some(args[at + 1].clone());
                at = at + 2;
            } else if text_eq(word, "--format") {
                if size - at < 2 {
                    return Err(ToolError::MissingOption(Flag::Format));
                }
                assert(all[at + 1] == args@[at + 1]@);
                let name: &str = args[at + 1].as_str();
                if text_eq(name, "text") {
                    format = OutputFormat::Text;
                } else if text_eq(name, "json") {
                    format = OutputFormat::Json;
                } else {
                    return Err(ToolError::UnsupportedFormat(args[at + 1].clone()));
                }
                at = at + 2;
            } else if text_eq(word, "-h") || text_eq(word, "--help") {
                return Err(ToolError::Usage);
            } else {
                return match parse_command(behind(args, at)) {
                    Ok(command) => Ok(Args { socket, format, command }),
                    Err(error) => Err(error),
                };
            }
        }
        Err(ToolError::Usage)
    }
}

/// What a filter adds to a request.
pub open spec fn filter_part(key: Seq<char>, value: Option<Seq<char>>) -> Seq<char> {
    match value {
        Some(value) => key + value,
        None => Seq::empty(),
    }
}

/// What filters add to a request.
pub open spec fn suffix_of(filters: Filters<Seq<char>>) -> Seq<char> {
    filter_part(" direction="@, filters.direction) + filter_part(" type="@, filters.packet_type)
        + filter_part(" emsg="@, filters.emsg) + filter_part(" app="@, filters.app_id)
        + filter_part(" changed="@, filters.changed)
}

fn append_filter(text: &mut String, key: &str, value: &Option<String>)
    ensures
        final(text)@ == old(text)@ + filter_part(key@, text_option(*value)),
{
    let ghost before = text@;
    match value {
        Some(value) => {
            text.append(key);
            text.append(value.as_str());
            assert(text@ =~= before + (key@ + value@));
        },
        None => {
            assert(text@ =~= before + Seq::<char>::empty());
        },
    }
}

/// The filters as a request spells them.
pub fn filter_suffix(filters: &Filters<String>) -> (suffix: String)
    ensures
        suffix@ == suffix_of(filters@),
{
    let mut suffix: String = String::new();
    append_filter(&mut suffix, " direction=", &filters.direction);
    append_filter(&mut suffix, " type=", &filters.packet_type);
    append_filter(&mut suffix, " emsg=", &filters.emsg);
    append_filter(&mut suffix, " app=", &filters.app_id);
    append_filter(&mut suffix, " changed=", &filters.changed);
    assert(suffix@ =~= suffix_of(filters@));
    suffix
}

/// The words of a text, between white space.
pub open spec fn words_of(text: Seq<char>) -> Seq<Seq<char>>
    decreases text.len(),
{
    if text.len() == 0 {
        Seq::empty()
    } else if is_space(text[0]) {
        words_of(text.skip(1))
    } else {
        let end = first_at(text, |ch: char| is_space(ch));
        if 0 < end <= text.len() {
            seq![text.take(end)] + words_of(text.skip(end))
        } else {
            Seq::empty()
        }
    }
}

/// Whether a value that may be missing holds no white space.
pub open spec fn is_one_word(value: Option<Seq<char>>) -> bool {
    match value {
        Some(value) => forall|i: int| 0 <= i < value.len() ==> !is_space(#[trigger] value[i]),
        None => true,
    }
}

/// The key under which a filter is written.
pub open spec fn key_of(field: FilterField) -> Seq<char> {
    match field {
        FilterField::Direction => "direction"@,
        FilterField::Type => "type"@,
        FilterField::Emsg => "emsg"@,
        FilterField::App => "app"@,
        FilterField::Changed => "changed"@,
    }
}

/// The word that sets a filter.
spec fn setting(entry: (FilterField, Seq<char>)) -> Seq<char> {
    key_of(entry.0) + seq!['='] + entry.1
}

/// The words that set filters, each behind a space.
spec fn settings(entries: Seq<(FilterField, Seq<char>)>) -> Seq<char>
    decreases entries.len(),
{
    if entries.len() == 0 {
        Seq::empty()
    } else {
        seq![' '] + setting(entries[0]) + settings(entries.skip(1))
    }
}

/// The filters with entries set, in their order.
spec fn with_entries(
    filters: Filters<Seq<char>>,
    entries: Seq<(FilterField, Seq<char>)>,
) -> Filters<Seq<char>>
    decreases entries.len(),
{
    if entries.len() == 0 {
        filters
    } else {
        with_entries(filters.with(entries[0].0, entries[0].1), entries.skip(1))
    }
}

/// The entry of a filter, if it is set.
spec fn entry(field: FilterField, value: Option<Seq<char>>) -> Seq<(FilterField, Seq<char>)> {
    match value {
        Some(value) => seq![(field, value)],
        None => Seq::empty(),
    }
}

proof fn lemma_key(field: FilterField)
    ensures
        key_of(field).len() > 0,
        key_of(field)[0] != '-',
        forall|i: int|
            0 <= i < key_of(field).len() ==> #[trigger] key_of(field)[i] != '=' && !is_space(
                key_of(field)[i],
            ),
        key_field(key_of(field)) == Some(field),
{
    reveal_strlit("direction");
    reveal_strlit("dir");
    reveal_strlit("type");
    reveal_strlit("emsg");
    reveal_strlit("app");
    reveal_strlit("app_id");
    reveal_strlit("appid");
    reveal_strlit("changed");
    reveal_strlit("change");
    let key = key_of(field);
    match field {
        FilterField::Direction => {},
        FilterField::Type => {
            assert(key[0] == 't');
            assert(key.len() == 4);
        },
        FilterField::Emsg => {
            assert(key[0] == 'e');
            assert("type"@[0] == 't');
            assert(key.len() == 4);
        },
        FilterField::App => {
            assert(key[0] == 'a');
            assert("dir"@[0] == 'd');
            assert(key.len() == 3);
        },
        FilterField::Changed => {
            assert(key.len() == 7);
        },
    }
}

proof fn lemma_no_flag(word: Seq<char>)
    requires
        word.len() > 0,
        word[0] != '-',
    ensures
        flag_field(word) is None,
{
    reveal_strlit("--direction");
    reveal_strlit("--type");
    reveal_strlit("--emsg");
    reveal_strlit("--app-id");
    reveal_strlit("--app");
    reveal_strlit("--changed");
    reveal_strlit("--change");
    assert("--direction"@[0] == '-');
    assert("--type"@[0] == '-');
    assert("--emsg"@[0] == '-');
    assert("--app-id"@[0] == '-');
    assert("--app"@[0] == '-');
    assert("--changed"@[0] == '-');
    assert("--change"@[0] == '-');
}

proof fn lemma_parts(field: FilterField, value: Option<Seq<char>>)
    ensures
        settings(entry(field, value)) == filter_part(
            seq![' '] + key_of(field) + seq!['='],
            value,
        ),
{
    let entries = entry(field, value);
    if value is Some {
        assert(entries.skip(1) =~= Seq::empty());
        assert(settings(Seq::empty()) =~= Seq::<char>::empty());
        assert(settings(entries) =~= seq![' '] + key_of(field) + seq!['='] + value->0);
    }
}

proof fn lemma_settings_add(
    first: Seq<(FilterField, Seq<char>)>,
    second: Seq<(FilterField, Seq<char>)>,
)
    ensures
        settings(first + second) == settings(first) + settings(second),
    decreases first.len(),
{
    if first.len() == 0 {
        assert(first + second =~= second);
        assert(settings(first) + settings(second) =~= settings(second));
    } else {
        lemma_settings_add(first.skip(1), second);
        assert((first + second).skip(1) =~= first.skip(1) + second);
        assert(settings(first + second) =~= settings(first) + settings(second));
    }
}

proof fn lemma_with_add(
    filters: Filters<Seq<char>>,
    first: Seq<(FilterField, Seq<char>)>,
    second: Seq<(FilterField, Seq<char>)>,
)
    ensures
        with_entries(filters, first + second) == with_entries(
            with_entries(filters, first),
            second,
        ),
    decreases first.len(),
{
    if first.len() == 0 {
        assert(first + second =~= second);
    } else {
        lemma_with_add(filters.with(first[0].0, first[0].1), first.skip(1), second);
        assert((first + second).skip(1) =~= first.skip(1) + second);
    }
}

proof fn lemma_with_entry(filters: Filters<Seq<char>>, field: FilterField, value: Option<Seq<char>>)
    ensures
        with_entries(filters, entry(field, value)) == match value {
            Some(value) => filters.with(field, value),
            None => filters,
        },
{
    let entries = entry(field, value);
    if value is Some {
        assert(entries.skip(1) =~= Seq::empty());
        assert(with_entries(filters.with(field, value->0), Seq::empty()) == filters.with(
            field,
            value->0,
        ));
    }
}

/// Settings are read back: from the word at `at` on, they set what they were written for.
proof fn lemma_settings_are_read(
    entries: Seq<(FilterField, Seq<char>)>,
    before: Seq<Seq<char>>,
    filters: Filters<Seq<char>>,
)
    requires
        forall|i: int|
            0 <= i < entries.len() ==> is_one_word(Some((#[trigger] entries[i]).1)),
    ensures
        filters_from(before + words_of(settings(entries)), before.len() as int, filters) == Ok::<
            Filters<Seq<char>>,
            ToolError<Seq<char>>,
        >(with_entries(filters, entries)),
    decreases entries.len(),
{
    let text = settings(entries);
    if entries.len() > 0 {
        let word = setting(entries[0]);
        let rest = settings(entries.skip(1));
        let stop = |ch: char| is_space(ch);
        let field = entries[0].0;
        let value = entries[0].1;
        let key = key_of(field);
        lemma_key(field);
        assert(is_one_word(Some(value)));
        assert(word.len() == key.len() + 1 + value.len());
        let tail = text.skip(1);
        assert(tail =~= word + rest);
        assert(word.len() > 0 && word[0] == key[0]);
        assert forall|i: int| 0 <= i < word.len() implies !is_space(#[trigger] word[i]) by {
            if i < key.len() {
                assert(word[i] == key[i]);
            } else if i == key.len() {
                assert(word[i] == '=');
            } else {
                assert(word[i] == value[i - key.len() - 1]);
                assert(!is_space(value[i - key.len() - 1]));
            }
        }
        assert forall|i: int| 0 <= i < word.len() implies !stop(#[trigger] tail[i]) by {
            assert(tail[i] == word[i]);
        }
        if rest.len() > 0 {
            assert(tail[word.len() as int] == rest[0]);
            assert(rest[0] == ' ');
        }
        lemma_first_is(tail, stop, word.len() as int);
        assert(tail.take(word.len() as int) =~= word);
        assert(tail.skip(word.len() as int) =~= rest);
        assert(text[0] == ' ');
        assert(words_of(text) == words_of(tail));
        assert(words_of(tail) == seq![word] + words_of(rest));
        let all = before + words_of(text);
        assert(all =~= before.push(word) + words_of(rest));
        assert(all[before.len() as int] == word);
        lemma_no_flag(word);
        assert forall|i: int| 0 <= i < key.len() implies #[trigger] word[i] != '=' by {
            assert(word[i] == key[i]);
        }
        lemma_first_is(word, |ch: char| ch == '=', key.len() as int);
        assert(word.take(key.len() as int) =~= key);
        assert(word.skip(key.len() as int + 1) =~= value);
        assert forall|i: int| 0 <= i < entries.skip(1).len() implies is_one_word(
            Some((#[trigger] entries.skip(1)[i]).1),
        ) by {
            assert(is_one_word(Some(entries[i + 1].1)));
        }
        lemma_settings_are_read(
            entries.skip(1),
            before.push(word),
            filters.with(field, value),
        );
    }
}

/// Filters that are written and split at white space are read back as they were, as long as
/// no value holds white space. Values may hold equals signs.
pub proof fn law_written_filters_are_read_back(filters: Filters<Seq<char>>)
    requires
        is_one_word(filters.direction),
        is_one_word(filters.packet_type),
        is_one_word(filters.emsg),
        is_one_word(filters.app_id),
        is_one_word(filters.changed),
    ensures
        filters_from(words_of(suffix_of(filters)), 0, Filters::none()) == Ok::<
            Filters<Seq<char>>,
            ToolError<Seq<char>>,
        >(filters),
{
    let direction = entry(FilterField::Direction, filters.direction);
    let packet_type = entry(FilterField::Type, filters.packet_type);
    let emsg = entry(FilterField::Emsg, filters.emsg);
    let app_id = entry(FilterField::App, filters.app_id);
    let changed = entry(FilterField::Changed, filters.changed);
    let entries = direction + packet_type + emsg + app_id + changed;
    assert(settings(entries) == suffix_of(filters)) by {
        lemma_settings_add(direction + packet_type + emsg + app_id, changed);
        lemma_settings_add(direction + packet_type + emsg, app_id);
        lemma_settings_add(direction + packet_type, emsg);
        lemma_settings_add(direction, packet_type);
        lemma_parts(FilterField::Direction, filters.direction);
        lemma_parts(FilterField::Type, filters.packet_type);
        lemma_parts(FilterField::Emsg, filters.emsg);
        lemma_parts(FilterField::App, filters.app_id);
        lemma_parts(FilterField::Changed, filters.changed);
        reveal_strlit("direction");
        reveal_strlit(" direction=");
        reveal_strlit("type");
        reveal_strlit(" type=");
        reveal_strlit("emsg");
        reveal_strlit(" emsg=");
        reveal_strlit("app");
        reveal_strlit(" app=");
        reveal_strlit("changed");
        reveal_strlit(" changed=");
        assert(" direction="@ =~= seq![' '] + "direction"@ + seq!['=']);
        assert(" type="@ =~= seq![' '] + "type"@ + seq!['=']);
        assert(" emsg="@ =~= seq![' '] + "emsg"@ + seq!['=']);
        assert(" app="@ =~= seq![' '] + "app"@ + seq!['=']);
        assert(" changed="@ =~= seq![' '] + "changed"@ + seq!['=']);
    }
    assert(with_entries(Filters::none(), entries) == filters) by {
        let none = Filters::<Seq<char>>::none();
        lemma_with_add(none, direction + packet_type + emsg + app_id, changed);
        lemma_with_add(none, direction + packet_type + emsg, app_id);
        lemma_with_add(none, direction + packet_type, emsg);
        lemma_with_add(none, direction, packet_type);
        lemma_with_entry(none, FilterField::Direction, filters.direction);
        let first = with_entries(none, direction);
        lemma_with_entry(first, FilterField::Type, filters.packet_type);
        let second = with_entries(first, packet_type);
        lemma_with_entry(second, FilterField::Emsg, filters.emsg);
        let third = with_entries(second, emsg);
        lemma_with_entry(third, FilterField::App, filters.app_id);
        let fourth = with_entries(third, app_id);
        lemma_with_entry(fourth, FilterField::Changed, filters.changed);
    }
    lemma_settings_are_read(entries, Seq::empty(), Filters::none());
    assert(Seq::<Seq<char>>::empty() + words_of(settings(entries)) =~= words_of(
        settings(entries),
    ));
}

/// What the output format adds to a request.
pub open spec fn format_suffix(format: OutputFormat) -> Seq<char> {
    match format {
        OutputFormat::Text => ""@,
        OutputFormat::Json => " --json"@,
    }
}

pub fn json_suffix(format: OutputFormat) -> (suffix: &'static str)
    ensures
        suffix@ == format_suffix(format),
{
    match format {
        OutputFormat::Text => "",
        OutputFormat::Json => " --json",
    }
}

/// The request for a capture command.
pub open spec fn capture_request(command: CaptureCommand<Seq<char>>, format: OutputFormat) -> Seq<
    char,
> {
    let request = match command {
        CaptureCommand::Status => "packet capture status"@,
        CaptureCommand::On { raw, filters } => "packet capture on "@ + (if raw {
            "raw"@
        } else {
            "summary"@
        }) + suffix_of(filters),
        CaptureCommand::Off => "packet capture off"@,
        CaptureCommand::Clear => "packet capture clear"@,
        CaptureCommand::Limit(limit) => "packet capture limit "@ + decimal_of(limit as nat),
        CaptureCommand::FilterClear => "packet capture filter clear"@,
    };
    request + format_suffix(format)
}

pub fn capture_command(command: &CaptureCommand<String>, format: OutputFormat) -> (request: String)
    ensures
        request@ == capture_request(command@, format),
{
    let mut request: String = match command {
        CaptureCommand::Status => "packet capture status".to_owned(),
        CaptureCommand::On { raw, filters } => {
            let mut text: String = concat(
                "packet capture on ",
                if *raw {
                    "raw"
                } else {
                    "summary"
                },
            );
            text.append(filter_suffix(filters).as_str());
            text
        },
        CaptureCommand::Off => "packet capture off".to_owned(),
        CaptureCommand::Clear => "packet capture clear".to_owned(),
        CaptureCommand::Limit(limit) => concat(
            "packet capture limit ",
            decimal(*limit as u64).as_str(),
        ),
        CaptureCommand::FilterClear => "packet capture filter clear".to_owned(),
    };
    request.append(json_suffix(format));
    request
}

/// The one request that a command sends to the client. A watch asks again and again; the
/// offline commands ask nothing.
pub open spec fn request_of(command: Command<Seq<char>>, format: OutputFormat) -> Option<
    Seq<char>,
> {
    match command {
        Command::Capture(capture) => Some(capture_request(capture, format)),
        Command::List(filters) => Some("packet list"@ + suffix_of(filters) + format_suffix(format)),
        Command::Show(id) => Some(
            "packet show "@ + decimal_of(id as nat) + format_suffix(format),
        ),
        Command::Save { id, path } => Some(
            "packet save "@ + decimal_of(id as nat) + " "@ + path + format_suffix(format),
        ),
        _ => None,
    }
}

pub fn request_text(command: &Command<String>, format: OutputFormat) -> (request: Option<String>)
    ensures
        text_option(request) == request_of(command@, format),
{
    match command {
        Command::Capture(capture) => Some(capture_command(capture, format)),
        Command::List(filters) => {
            let mut text: String = concat("packet list", filter_suffix(filters).as_str());
            text.append(json_suffix(format));
            Some(text)
        },
        Command::Show(id) => {
            let mut text: String = concat("packet show ", decimal(*id).as_str());
            text.append(json_suffix(format));
            Some(text)
        },
        Command::Save { id, path } => {
            let mut text: String = concat("packet save ", decimal(*id).as_str());
            text.append(" ");
            text.append(path.as_str());
            text.append(json_suffix(format));
            Some(text)
        },
        _ => None,
    }
}

/// The payload of an answer that reports success.
pub open spec fn payload_of(response: Seq<char>) -> Option<Seq<char>> {
    if begins_with(response, "ok "@) {
        Some(response.skip(3))
    } else {
        None
    }
}

/// Takes the payload out of an answer; any other answer is the error.
pub fn ok_payload(response: &str) -> (payload: Result<String, ToolError<String>>)
    ensures
        match payload {
            Ok(payload) => payload_of(response@) == Some(payload@),
            Err(error) => payload_of(response@) is None && error@ == (ToolError::Refused(response@)),
        },
{
    proof {
        reveal_strlit("ok ");
    }
    if !starts_with_text(response, "ok ") {
        return Err(ToolError::Refused(response.to_owned()));
    }
    let chars: Vec<char> = chars_of(response);
    let payload: Vec<char> = part_of(&chars, 3, chars.len());
    assert(payload@ =~= response@.skip(3));
    Ok(text_of(payload.as_slice()))
}

/// What is printed of an answer: all of it as text, and the payload as JSON.
pub fn printed_response(response: &str, format: OutputFormat) -> (printed: Result<
    String,
    ToolError<String>,
>)
    ensures
        match printed {
            Ok(printed) => Some(printed@) == (match format {
                OutputFormat::Text => Some(response@),
                OutputFormat::Json => payload_of(response@),
            }),
            Err(error) => format is Json && payload_of(response@) is None && error@ == (
            ToolError::Refused(response@)),
        },
{
    match format {
        OutputFormat::Text => Ok(response.to_owned()),
        OutputFormat::Json => ok_payload(response),
    }
}

/// Where the client listens: the socket that the environment names, or the one of the user
/// whom the runtime directory belongs to.
pub open spec fn socket_path_of(named: Option<Seq<char>>, runtime_dir: Option<Seq<char>>) -> Result<
    Seq<char>,
    ToolError<Seq<char>>,
> {
    if named is Some && named->0.len() > 0 {
        Ok(named->0)
    } else {
        match runtime_dir {
            None => Err(ToolError::NoRuntimeDir),
            Some(directory) => {
                let uid = behind_last(directory, '/');
                if uid.len() > 0 && (forall|i: int|
                    0 <= i < uid.len() ==> is_decimal_digit(#[trigger] uid[i])) {
                    Ok("/tmp/vapor-forge-"@ + uid + "/debug.sock"@)
                } else {
                    Err(ToolError::NoUid)
                }
            },
        }
    }
}

pub fn default_socket_path(named: Option<String>, runtime_dir: Option<String>) -> (path: Result<
    String,
    ToolError<String>,
>)
    ensures
        match path {
            Ok(path) => socket_path_of(text_option(named), text_option(runtime_dir)) == Ok::<
                Seq<char>,
                ToolError<Seq<char>>,
            >(path@),
            Err(error) => socket_path_of(text_option(named), text_option(runtime_dir)) == Err::<
                Seq<char>,
                ToolError<Seq<char>>,
            >(error@),
        },
{
    if let Some(path) = named {
        if path.as_str().unicode_len() > 0 {
            return Ok(path);
        }
    }
    let directory: String = match runtime_dir {
        Some(directory) => directory,
        None => {
            return Err(ToolError::NoRuntimeDir);
        },
    };
    let chars: Vec<char> = chars_of(directory.as_str());
    let size: usize = chars.len();
    let mut start: usize = size;
    let mut digits: bool = true;
    while start > 0 && chars[start - 1] != '/'
        invariant
            start <= size == chars@.len(),
            forall|i: int| start <= i < size ==> #[trigger] chars@[i] != '/',
            digits <==> forall|i: int| start <= i < size ==> is_decimal_digit(#[trigger] chars@[i]),
        decreases start,
    {
        let ch: char = chars[start - 1];
        if ch < '0' || ch > '9' {
            assert(!is_decimal_digit(chars@[start - 1]));
            digits = false;
        }
        start = start - 1;
    }
    let uid: Vec<char> = part_of(&chars, start, size);
    proof {
        lemma_behind_last(chars@, '/', start as int);
        assert(uid@ =~= chars@.skip(start as int));
        assert forall|i: int| start <= i < size implies #[trigger] chars@[i] == uid@[i - start] by {
        }
        assert forall|i: int| 0 <= i < uid@.len() implies #[trigger] uid@[i] == chars@[i
            + start] by {
        }
    }
    if uid.len() == 0 || !digits {
        return Err(ToolError::NoUid);
    }
    let mut path: String = concat("/tmp/vapor-forge-", text_of(uid.as_slice()).as_str());
    path.append("/debug.sock");
    Ok(path)
}

/// The socket to use: the one that was asked for, or the usual one.
pub fn resolve_socket(
    socket: Option<String>,
    named: Option<String>,
    runtime_dir: Option<String>,
) -> (path: Result<String, ToolError<String>>)
    ensures
        match path {
            Ok(path) => (match socket {
                Some(socket) => path@ == socket@,
                None => socket_path_of(text_option(named), text_option(runtime_dir)) == Ok::<
                    Seq<char>,
                    ToolError<Seq<char>>,
                >(path@),
            }),
            Err(error) => socket is None && socket_path_of(
                text_option(named),
                text_option(runtime_dir),
            ) == Err::<Seq<char>, ToolError<Seq<char>>>(error@),
        },
{
    match socket {
        Some(socket) => Ok(socket),
        None => default_socket_path(named, runtime_dir),
    }
}

/// The value of one filter.
pub open spec fn filter_value<T>(filters: Filters<T>, field: FilterField) -> Option<T> {
    match field {
        FilterField::Direction => filters.direction,
        FilterField::Type => filters.packet_type,
        FilterField::Emsg => filters.emsg,
        FilterField::App => filters.app_id,
        FilterField::Changed => filters.changed,
    }
}

/// Setting a filter sets it, and leaves the others alone.
pub proof fn law_filters_are_set_one_by_one(
    filters: Filters<Seq<char>>,
    field: FilterField,
    value: Seq<char>,
    other: FilterField,
)
    ensures
        filter_value(filters.with(field, value), field) == Some(value),
        other != field ==> filter_value(filters.with(field, value), other) == filter_value(
            filters,
            other,
        ),
        filter_value(Filters::<Seq<char>>::none(), field) is None,
{
}

proof fn lemma_flag_of_field(field: FilterField)
    ensures
        flag_field(field.spec_flag().text()) == Some(field),
{
    reveal_strlit("--direction");
    reveal_strlit("--type");
    reveal_strlit("--emsg");
    reveal_strlit("--app-id");
    reveal_strlit("--app");
    reveal_strlit("--changed");
    reveal_strlit("--change");
    assert("--type"@[2] == 't' && "--emsg"@[2] == 'e');
    assert("--direction"@.len() == 11 && "--app-id"@.len() == 8 && "--app"@.len() == 5
        && "--changed"@.len() == 9 && "--change"@.len() == 8 && "--type"@.len() == 6
        && "--emsg"@.len() == 6);
}

proof fn lemma_filters_are_shifted(
    before: Seq<Seq<char>>,
    args: Seq<Seq<char>>,
    at: int,
    filters: Filters<Seq<char>>,
)
    requires
        0 <= at,
    ensures
        filters_from(before + args, before.len() + at, filters) == filters_from(args, at, filters),
    decreases args.len() - at,
{
    let all = before + args;
    if at < args.len() {
        assert(all[before.len() + at] == args[at]);
        let word = args[at];
        match flag_field(word) {
            Some(field) => {
                if at + 1 < args.len() {
                    assert(all[before.len() + at + 1] == args[at + 1]);
                    lemma_filters_are_shifted(
                        before,
                        args,
                        at + 2,
                        filters.with(field, args[at + 1]),
                    );
                }
            },
            None => {
                if equals_at(word) < word.len() {
                    match key_field(word.take(equals_at(word))) {
                        Some(field) => {
                            lemma_filters_are_shifted(
                                before,
                                args,
                                at + 1,
                                filters.with(field, word.skip(equals_at(word) + 1)),
                            );
                        },
                        None => {},
                    }
                }
            },
        }
    }
}

/// An option with its value, and a key and a value around an equals sign, set the same filter
/// and let the reading go on behind them; the last setting of a filter decides. An option
/// without a value is refused.
pub proof fn law_options_and_keys_set_filters(
    filters: Filters<Seq<char>>,
    field: FilterField,
    value: Seq<char>,
    rest: Seq<Seq<char>>,
)
    ensures
        filters_from(seq![field.spec_flag().text(), value] + rest, 0, filters) == filters_from(
            rest,
            0,
            filters.with(field, value),
        ),
        filters_from(seq![key_of(field) + seq!['='] + value] + rest, 0, filters) == filters_from(
            rest,
            0,
            filters.with(field, value),
        ),
        filters_from(seq![field.spec_flag().text()], 0, filters) == Err::<
            Filters<Seq<char>>,
            ToolError<Seq<char>>,
        >(ToolError::MissingValue(field.spec_flag())),
        filters_from(Seq::empty(), 0, filters) == Ok::<Filters<Seq<char>>, ToolError<Seq<char>>>(
            filters,
        ),
{
    lemma_flag_of_field(field);
    lemma_key(field);
    let pair = seq![field.spec_flag().text(), value];
    assert((pair + rest)[0] == field.spec_flag().text());
    assert((pair + rest)[1] == value);
    lemma_filters_are_shifted(pair, rest, 0, filters.with(field, value));
    let word = key_of(field) + seq!['='] + value;
    let one = seq![word];
    assert((one + rest)[0] == word);
    assert(word[0] == key_of(field)[0]);
    lemma_no_flag(word);
    let at = key_of(field).len() as int;
    assert forall|i: int| 0 <= i < at implies word[i] != '=' by {
        assert(word[i] == key_of(field)[i]);
    }
    lemma_first_is(word, |ch: char| ch == '=', at);
    assert(word.take(at) =~= key_of(field));
    assert(word.skip(at + 1) =~= value);
    lemma_filters_are_shifted(one, rest, 0, filters.with(field, value));
}

/// A word is a filter unless it says how much is captured, and the last word that does
/// decides: whole packets for `raw`, with dashes or without, and summaries otherwise.
pub proof fn law_the_last_extent_decides(words: Seq<Seq<char>>, word: Seq<char>)
    ensures
        wants_raw(words.push("--raw"@)),
        wants_raw(words.push("raw"@)),
        !wants_raw(words.push("summary"@)),
        !wants_raw(Seq::empty()),
        word != "--raw"@ && word != "raw"@ && word != "summary"@ ==> wants_raw(words.push(word))
            == wants_raw(words) && filter_words(words.push(word)) == filter_words(words).push(word),
        filter_words(words.push("--raw"@)) == filter_words(words),
        filter_words(words.push("raw"@)) == filter_words(words),
        filter_words(words.push("summary"@)) == filter_words(words),
        filter_words(Seq::empty()) == Seq::<Seq<char>>::empty(),
{
    reveal_strlit("--raw");
    reveal_strlit("raw");
    reveal_strlit("summary");
    assert(words.push("--raw"@).drop_last() =~= words);
    assert(words.push("raw"@).drop_last() =~= words);
    assert(words.push("summary"@).drop_last() =~= words);
    assert(words.push(word).drop_last() =~= words);
    assert(words.push("--raw"@).last() == "--raw"@ && words.push("raw"@).last() == "raw"@
        && words.push("summary"@).last() == "summary"@);
    assert("--raw"@.len() == 5 && "raw"@.len() == 3 && "summary"@.len() == 7);
}

proof fn lemma_watch_is_shifted(
    before: Seq<Seq<char>>,
    args: Seq<Seq<char>>,
    at: int,
    interval_ms: u64,
    words: Seq<Seq<char>>,
)
    requires
        0 <= at,
    ensures
        watch_from(before + args, before.len() + at, interval_ms, words) == watch_from(
            args,
            at,
            interval_ms,
            words,
        ),
    decreases args.len() - at,
{
    let all = before + args;
    if at < args.len() {
        assert(all[before.len() + at] == args[at]);
        if args[at] == "--interval-ms"@ {
            if at + 1 < args.len() {
                assert(all[before.len() + at + 1] == args[at + 1]);
                match number_of(args[at + 1], u64::MAX as nat) {
                    Ok(number) => {
                        lemma_watch_is_shifted(before, args, at + 2, number as u64, words);
                    },
                    Err(_) => {},
                }
            }
        } else {
            lemma_watch_is_shifted(before, args, at + 1, interval_ms, words.push(args[at]));
        }
    }
}

/// The interval of a watch is taken out of its words, wherever it stands: what is left is read
/// as filters in its order. The last interval decides, and one that is no number is refused.
pub proof fn law_intervals_are_taken_out(
    interval_ms: u64,
    words: Seq<Seq<char>>,
    word: Seq<char>,
    rest: Seq<Seq<char>>,
    number: u64,
)
    ensures
        watch_from(Seq::empty(), 0, interval_ms, words) == Ok::<
            (u64, Seq<Seq<char>>),
            ToolError<Seq<char>>,
        >((interval_ms, words)),
        word != "--interval-ms"@ ==> watch_from(seq![word] + rest, 0, interval_ms, words)
            == watch_from(rest, 0, interval_ms, words.push(word)),
        watch_from(
            seq!["--interval-ms"@, decimal_of(number as nat)] + rest,
            0,
            interval_ms,
            words,
        ) == watch_from(rest, 0, number, words),
        watch_from(seq!["--interval-ms"@], 0, interval_ms, words) == Err::<
            (u64, Seq<Seq<char>>),
            ToolError<Seq<char>>,
        >(ToolError::MissingValue(Flag::IntervalMs)),
        number_of(word, u64::MAX as nat) is Err ==> watch_from(
            seq!["--interval-ms"@, word] + rest,
            0,
            interval_ms,
            words,
        ) == Err::<(u64, Seq<Seq<char>>), ToolError<Seq<char>>>(
            ToolError::InvalidInterval(number_of(word, u64::MAX as nat)->Err_0),
        ),
{
    law_decimals_are_read_back(number as nat, u64::MAX as nat);
    law_readings_agree(decimal_of(number as nat), u64::MAX as nat);
    let one = seq![word];
    assert((one + rest)[0] == word);
    lemma_watch_is_shifted(one, rest, 0, interval_ms, words.push(word));
    let pair = seq!["--interval-ms"@, decimal_of(number as nat)];
    assert((pair + rest)[0] == "--interval-ms"@);
    assert((pair + rest)[1] == decimal_of(number as nat));
    lemma_watch_is_shifted(pair, rest, 0, number, words);
    let bad = seq!["--interval-ms"@, word];
    assert((bad + rest)[0] == "--interval-ms"@);
    assert((bad + rest)[1] == word);
}

proof fn lemma_offline_is_shifted(
    before: Seq<Seq<char>>,
    args: Seq<Seq<char>>,
    at: int,
    input: Input<Seq<char>>,
    direction: PacketDirection,
    config: Option<Seq<char>>,
)
    requires
        0 <= at,
    ensures
        offline_from(before + args, before.len() + at, input, direction) == offline_from(
            args,
            at,
            input,
            direction,
        ),
        simulate_from(before + args, before.len() + at, input, config) == simulate_from(
            args,
            at,
            input,
            config,
        ),
    decreases args.len() - at,
{
    let all = before + args;
    if at < args.len() {
        assert(all[before.len() + at] == args[at]);
        if at + 1 < args.len() {
            assert(all[before.len() + at + 1] == args[at + 1]);
            let value = args[at + 1];
            lemma_offline_is_shifted(before, args, at + 2, Input::File(value), direction, config);
            lemma_offline_is_shifted(before, args, at + 2, Input::Hex(value), direction, config);
            lemma_offline_is_shifted(before, args, at + 2, input, direction, Some(value));
            if direction_of(value) is Some {
                lemma_offline_is_shifted(
                    before,
                    args,
                    at + 2,
                    input,
                    direction_of(value)->0,
                    config,
                );
            }
        }
    }
}

/// The options of an offline command are read one behind the other: a source takes the place
/// of the one before, a direction and a configuration as well, and none touches the others.
/// The two commands read a source alike.
pub proof fn law_offline_options_are_read(
    input: Input<Seq<char>>,
    direction: PacketDirection,
    config: Option<Seq<char>>,
    value: Seq<char>,
    rest: Seq<Seq<char>>,
)
    ensures
        offline_from(seq!["--file"@, value] + rest, 0, input, direction) == offline_from(
            rest,
            0,
            Input::File(value),
            direction,
        ),
        offline_from(seq!["--hex"@, value] + rest, 0, input, direction) == offline_from(
            rest,
            0,
            Input::Hex(value),
            direction,
        ),
        offline_from(seq!["--direction"@, "send"@] + rest, 0, input, direction) == offline_from(
            rest,
            0,
            input,
            PacketDirection::Send,
        ),
        offline_from(seq!["--direction"@, "recv"@] + rest, 0, input, direction) == offline_from(
            rest,
            0,
            input,
            PacketDirection::Recv,
        ),
        simulate_from(seq!["--file"@, value] + rest, 0, input, config) == simulate_from(
            rest,
            0,
            Input::File(value),
            config,
        ),
        simulate_from(seq!["--hex"@, value] + rest, 0, input, config) == simulate_from(
            rest,
            0,
            Input::Hex(value),
            config,
        ),
        simulate_from(seq!["--config"@, value] + rest, 0, input, config) == simulate_from(
            rest,
            0,
            input,
            Some(value),
        ),
        offline_from(Seq::empty(), 0, input, direction) == Ok::<
            (Input<Seq<char>>, PacketDirection),
            ToolError<Seq<char>>,
        >((input, direction)),
        simulate_from(Seq::empty(), 0, input, config) == Ok::<
            (Input<Seq<char>>, Option<Seq<char>>),
            ToolError<Seq<char>>,
        >((input, config)),
{
    reveal_strlit("--file");
    reveal_strlit("--hex");
    reveal_strlit("--direction");
    reveal_strlit("--config");
    reveal_strlit("send");
    reveal_strlit("recv");
    assert("--file"@.len() == 6 && "--hex"@.len() == 5 && "--direction"@.len() == 11
        && "--config"@.len() == 8);
    assert("send"@[0] == 's' && "recv"@[0] == 'r');
    let file = seq!["--file"@, value];
    let hex = seq!["--hex"@, value];
    let told = seq!["--config"@, value];
    let sent = seq!["--direction"@, "send"@];
    let received = seq!["--direction"@, "recv"@];
    assert((file + rest)[0] == "--file"@ && (file + rest)[1] == value);
    assert((hex + rest)[0] == "--hex"@ && (hex + rest)[1] == value);
    assert((told + rest)[0] == "--config"@ && (told + rest)[1] == value);
    assert((sent + rest)[0] == "--direction"@ && (sent + rest)[1] == "send"@);
    assert((received + rest)[0] == "--direction"@ && (received + rest)[1] == "recv"@);
    lemma_offline_is_shifted(file, rest, 0, Input::File(value), direction, config);
    lemma_offline_is_shifted(hex, rest, 0, Input::Hex(value), direction, config);
    lemma_offline_is_shifted(told, rest, 0, input, direction, Some(value));
    lemma_offline_is_shifted(sent, rest, 0, input, PacketDirection::Send, config);
    lemma_offline_is_shifted(received, rest, 0, input, PacketDirection::Recv, config);
}

proof fn lemma_commands_differ()
    ensures
        "capture"@ != "list"@ && "capture"@ != "show"@ && "capture"@ != "save"@ && "capture"@
            != "watch"@ && "capture"@ != "decode"@ && "capture"@ != "explain"@ && "capture"@
            != "simulate"@,
        "list"@ != "show"@ && "list"@ != "save"@ && "list"@ != "watch"@ && "list"@ != "decode"@
            && "list"@ != "explain"@ && "list"@ != "simulate"@,
        "show"@ != "save"@ && "show"@ != "watch"@ && "show"@ != "decode"@ && "show"@ != "explain"@
            && "show"@ != "simulate"@,
        "save"@ != "watch"@ && "save"@ != "decode"@ && "save"@ != "explain"@ && "save"@
            != "simulate"@,
        "watch"@ != "decode"@ && "watch"@ != "explain"@ && "watch"@ != "simulate"@,
        "decode"@ != "explain"@ && "decode"@ != "simulate"@,
        "explain"@ != "simulate"@,
{
    reveal_strlit("capture");
    reveal_strlit("list");
    reveal_strlit("show");
    reveal_strlit("save");
    reveal_strlit("watch");
    reveal_strlit("decode");
    reveal_strlit("explain");
    reveal_strlit("simulate");
    assert("capture"@[0] == 'c' && "list"@[0] == 'l' && "show"@[1] == 'h' && "save"@[1] == 'a'
        && "watch"@[0] == 'w' && "decode"@[0] == 'd' && "explain"@[0] == 'e' && "simulate"@[1]
        == 'i');
    assert("show"@[0] == 's' && "save"@[0] == 's' && "simulate"@[0] == 's');
}

/// A command is the one that its first word names, the packet that a number names is that one,
/// and what is saved goes where the third word says.
pub proof fn law_commands_are_those_named(args: Seq<Seq<char>>, id: u64, path: Seq<char>)
    requires
        args.len() > 0,
    ensures
        command_of(args) matches Ok(command) ==> {
            &&& args[0] == "capture"@ <==> command is Capture
            &&& args[0] == "list"@ <==> command is List
            &&& args[0] == "show"@ <==> command is Show
            &&& args[0] == "save"@ <==> command is Save
            &&& args[0] == "watch"@ <==> command is Watch
            &&& args[0] == "decode"@ <==> command is Decode
            &&& args[0] == "explain"@ <==> command is Explain
            &&& args[0] == "simulate"@ <==> command is Simulate
        },
        command_of(seq!["show"@, decimal_of(id as nat)]) == Ok::<
            Command<Seq<char>>,
            ToolError<Seq<char>>,
        >(Command::Show(id)),
        command_of(seq!["save"@, decimal_of(id as nat), path]) == Ok::<
            Command<Seq<char>>,
            ToolError<Seq<char>>,
        >(Command::Save { id, path }),
        command_of(seq!["save"@, decimal_of(id as nat)]) == Err::<
            Command<Seq<char>>,
            ToolError<Seq<char>>,
        >(ToolError::Usage),
{
    lemma_commands_differ();
    law_decimals_are_read_back(id as nat, u64::MAX as nat);
    law_readings_agree(decimal_of(id as nat), u64::MAX as nat);
    assert(seq!["show"@, decimal_of(id as nat)][1] == decimal_of(id as nat));
    assert(seq!["save"@, decimal_of(id as nat), path][1] == decimal_of(id as nat));
    assert(seq!["save"@, decimal_of(id as nat)][1] == decimal_of(id as nat));
}

/// Each offline command goes by the direction that is named: a decoding by its option, an
/// explanation and a simulation by the word in front of the options. Where none is named, a
/// packet was received, or is to be sent for a simulation.
pub proof fn law_directions_are_those_named(rest: Seq<Seq<char>>)
    requires
        rest.len() > 0 ==> rest[0] != "send"@ && rest[0] != "recv"@,
    ensures
        command_of(seq!["explain"@] + rest) matches Ok(command) ==> command->Explain_direction
            is Recv,
        command_of(seq!["explain"@, "recv"@] + rest) matches Ok(command)
            ==> command->Explain_direction is Recv,
        command_of(seq!["explain"@, "send"@] + rest) matches Ok(command)
            ==> command->Explain_direction is Send,
        command_of(seq!["simulate"@] + rest) matches Ok(command) ==> command->Simulate_direction
            is Send,
        command_of(seq!["simulate"@, "recv"@] + rest) matches Ok(command)
            ==> command->Simulate_direction is Recv,
        command_of(seq!["simulate"@, "send"@] + rest) matches Ok(command)
            ==> command->Simulate_direction is Send,
        command_of(seq!["explain"@, "send"@] + rest) is Ok <==> command_of(
            seq!["explain"@, "recv"@] + rest,
        ) is Ok,
        command_of(seq!["simulate"@, "send"@] + rest) is Ok <==> command_of(
            seq!["simulate"@] + rest,
        ) is Ok,
{
    lemma_commands_differ();
    reveal_strlit("send");
    reveal_strlit("recv");
    assert("send"@[0] == 's' && "recv"@[0] == 'r');
    assert((seq!["explain"@] + rest).skip(1) =~= rest);
    assert((seq!["simulate"@] + rest).skip(1) =~= rest);
    assert((seq!["explain"@, "recv"@] + rest).skip(1) =~= seq!["recv"@] + rest);
    assert((seq!["explain"@, "send"@] + rest).skip(1) =~= seq!["send"@] + rest);
    assert((seq!["simulate"@, "recv"@] + rest).skip(1) =~= seq!["recv"@] + rest);
    assert((seq!["simulate"@, "send"@] + rest).skip(1) =~= seq!["send"@] + rest);
    assert((seq!["recv"@] + rest).skip(1) =~= rest);
    assert((seq!["send"@] + rest).skip(1) =~= rest);
    assert(rest.skip(0) =~= rest);
    assert((seq!["recv"@] + rest)[0] == "recv"@ && (seq!["send"@] + rest)[0] == "send"@);
    assert((seq!["explain"@] + rest)[0] == "explain"@ && (seq!["simulate"@] + rest)[0]
        == "simulate"@);
    assert((seq!["explain"@, "recv"@] + rest)[0] == "explain"@ && (seq!["explain"@, "send"@]
        + rest)[0] == "explain"@);
    assert((seq!["simulate"@, "recv"@] + rest)[0] == "simulate"@ && (seq!["simulate"@, "send"@]
        + rest)[0] == "simulate"@);
    lemma_refusals_ignore_the_direction(rest, 0, Input::StdinHex, Input::StdinHex);
}

/// Whether offline options are refused does not depend on the direction they start with.
proof fn lemma_refusals_ignore_the_direction(
    args: Seq<Seq<char>>,
    at: int,
    input: Input<Seq<char>>,
    other: Input<Seq<char>>,
)
    ensures
        offline_from(args, at, input, PacketDirection::Send) is Ok <==> offline_from(
            args,
            at,
            other,
            PacketDirection::Recv,
        ) is Ok,
    decreases args.len() - at,
{
    if 0 <= at && at + 1 < args.len() {
        let value = args[at + 1];
        lemma_refusals_ignore_the_direction(args, at + 2, Input::File(value), Input::File(value));
        lemma_refusals_ignore_the_direction(args, at + 2, Input::Hex(value), Input::Hex(value));
        lemma_refusals_ignore_the_direction(args, at + 2, input, other);
        lemma_refusals_ignore_the_direction(args, at + 2, other, input);
        if direction_of(value) is Some {
            lemma_same_direction(args, at + 2, input, other, direction_of(value)->0);
        }
    }
}

proof fn lemma_same_direction(
    args: Seq<Seq<char>>,
    at: int,
    input: Input<Seq<char>>,
    other: Input<Seq<char>>,
    direction: PacketDirection,
)
    ensures
        offline_from(args, at, input, direction) is Ok <==> offline_from(
            args,
            at,
            other,
            direction,
        ) is Ok,
    decreases args.len() - at,
{
    if 0 <= at && at + 1 < args.len() {
        let value = args[at + 1];
        if direction_of(value) is Some {
            lemma_same_direction(args, at + 2, input, other, direction_of(value)->0);
        }
        lemma_same_direction(args, at + 2, Input::File(value), Input::File(value), direction);
        lemma_same_direction(args, at + 2, Input::Hex(value), Input::Hex(value), direction);
    }
}

proof fn lemma_args_are_shifted(
    before: Seq<Seq<char>>,
    args: Seq<Seq<char>>,
    at: int,
    socket: Option<Seq<char>>,
    format: OutputFormat,
)
    requires
        0 <= at,
    ensures
        args_from(before + args, before.len() + at, socket, format) == args_from(
            args,
            at,
            socket,
            format,
        ),
    decreases args.len() - at,
{
    let all = before + args;
    if at < args.len() {
        assert(all[before.len() + at] == args[at]);
        assert(all.skip(before.len() + at) =~= args.skip(at));
        if at + 1 < args.len() {
            assert(all[before.len() + at + 1] == args[at + 1]);
            lemma_args_are_shifted(before, args, at + 2, Some(args[at + 1]), format);
            lemma_args_are_shifted(before, args, at + 2, socket, OutputFormat::Text);
            lemma_args_are_shifted(before, args, at + 2, socket, OutputFormat::Json);
        }
    }
}

/// The tool's own options stand before the command and are read one behind the other; the
/// command and everything behind it is left to the command. Asking for help, or for nothing,
/// shows the usage.
pub proof fn law_own_options_stand_before_the_command(
    socket: Option<Seq<char>>,
    format: OutputFormat,
    value: Seq<char>,
    rest: Seq<Seq<char>>,
)
    ensures
        args_from(seq!["--socket"@, value] + rest, 0, socket, format) == args_from(
            rest,
            0,
            Some(value),
            format,
        ),
        args_from(seq!["--format"@, "json"@] + rest, 0, socket, format) == args_from(
            rest,
            0,
            socket,
            OutputFormat::Json,
        ),
        args_from(seq!["--format"@, "text"@] + rest, 0, socket, format) == args_from(
            rest,
            0,
            socket,
            OutputFormat::Text,
        ),
        rest.len() > 0 && rest[0] != "--socket"@ && rest[0] != "--format"@ && rest[0] != "-h"@
            && rest[0] != "--help"@ ==> args_from(rest, 0, socket, format) == (match command_of(
            rest,
        ) {
            Ok(command) => Ok::<Args<Seq<char>>, ToolError<Seq<char>>>(
                Args { socket, format, command },
            ),
            Err(error) => Err::<Args<Seq<char>>, ToolError<Seq<char>>>(error),
        }),
        args_from(Seq::empty(), 0, socket, format) == Err::<Args<Seq<char>>, ToolError<Seq<char>>>(
            ToolError::Usage,
        ),
{
    reveal_strlit("--socket");
    reveal_strlit("--format");
    reveal_strlit("text");
    reveal_strlit("json");
    assert("--socket"@[2] == 's' && "--format"@[2] == 'f');
    assert("text"@[0] == 't' && "json"@[0] == 'j');
    let own = seq!["--socket"@, value];
    let json = seq!["--format"@, "json"@];
    let plain = seq!["--format"@, "text"@];
    assert((own + rest)[0] == "--socket"@ && (own + rest)[1] == value);
    assert((json + rest)[0] == "--format"@ && (json + rest)[1] == "json"@);
    assert((plain + rest)[0] == "--format"@ && (plain + rest)[1] == "text"@);
    lemma_args_are_shifted(own, rest, 0, Some(value), format);
    lemma_args_are_shifted(json, rest, 0, socket, OutputFormat::Json);
    lemma_args_are_shifted(plain, rest, 0, socket, OutputFormat::Text);
    assert(rest.skip(0) =~= rest);
}

/// A request as JSON is the request as text with one word more, and the commands that ask the
/// client once are exactly those about the capture and what it holds.
pub proof fn law_requests_differ_in_one_word(command: Command<Seq<char>>)
    ensures
        request_of(command, OutputFormat::Text) is Some <==> command is Capture || command is List
            || command is Show || command is Save,
        request_of(command, OutputFormat::Json) is Some <==> request_of(
            command,
            OutputFormat::Text,
        ) is Some,
        request_of(command, OutputFormat::Text) is Some ==> request_of(
            command,
            OutputFormat::Json,
        )->0 == request_of(command, OutputFormat::Text)->0 + " --json"@,
{
    reveal_strlit("");
    assert(""@ =~= Seq::<char>::empty());
    match command {
        Command::Capture(capture) => {
            let text = capture_request(capture, OutputFormat::Text);
            assert(capture_request(capture, OutputFormat::Json) =~= text + " --json"@);
        },
        Command::List(filters) => {
            let text = "packet list"@ + suffix_of(filters);
            assert(text + ""@ =~= text);
        },
        Command::Show(id) => {
            let text = "packet show "@ + decimal_of(id as nat);
            assert(text + ""@ =~= text);
        },
        Command::Save { id, path } => {
            let text = "packet save "@ + decimal_of(id as nat) + " "@ + path;
            assert(text + ""@ =~= text);
        },
        _ => {},
    }
}

/// The payload of an answer is all that stands behind the word of success; any other answer
/// has none.
pub proof fn law_payloads_stand_behind_success(response: Seq<char>, payload: Seq<char>)
    ensures
        payload_of("ok "@ + payload) == Some(payload),
        payload_of(response) is Some ==> response == "ok "@ + payload_of(response)->0,
        response.len() < 3 || response[0] != 'o' || response[1] != 'k' || response[2] != ' '
            ==> payload_of(response) is None,
{
    reveal_strlit("ok ");
    assert(("ok "@ + payload).take(3) =~= "ok "@);
    assert(("ok "@ + payload).skip(3) =~= payload);
    if payload_of(response) is Some {
        assert(response =~= response.take(3) + response.skip(3));
        assert(response.take(3)[0] == 'o' && response.take(3)[1] == 'k' && response.take(3)[2]
            == ' ');
    }
}

/// A socket that is named is used. Otherwise the client of the user listens whose number the
/// runtime directory ends in, whatever stands before it.
pub proof fn law_sockets_belong_to_their_user(
    named: Option<Seq<char>>,
    directory: Seq<char>,
    uid: nat,
)
    ensures
        named is Some && named->0.len() > 0 ==> socket_path_of(named, Some(directory)) == Ok::<
            Seq<char>,
            ToolError<Seq<char>>,
        >(named->0),
        !(named is Some && named->0.len() > 0) ==> socket_path_of(
            named,
            Some(directory + seq!['/'] + decimal_of(uid)),
        ) == Ok::<Seq<char>, ToolError<Seq<char>>>(
            "/tmp/vapor-forge-"@ + decimal_of(uid) + "/debug.sock"@,
        ),
        !(named is Some && named->0.len() > 0) ==> socket_path_of(
            named,
            Some(directory + seq!['/']),
        ) == Err::<Seq<char>, ToolError<Seq<char>>>(ToolError::NoUid),
        !(named is Some && named->0.len() > 0) ==> socket_path_of(named, None) == Err::<
            Seq<char>,
            ToolError<Seq<char>>,
        >(ToolError::NoRuntimeDir),
{
    law_decimals_are_read_back(uid, uid);
    let digits = decimal_of(uid);
    law_numbers_are_digits(uid);
    let path = directory + seq!['/'] + digits;
    let start = directory.len() as int + 1;
    assert forall|i: int| start <= i < path.len() implies #[trigger] path[i] != '/' by {
        assert(path[i] == digits[i - start]);
        assert(is_decimal_digit(digits[i - start]));
    }
    assert(path[start - 1] == '/');
    lemma_behind_last(path, '/', start);
    assert(path.skip(start) =~= digits);
    let bare = directory + seq!['/'];
    assert(bare[start - 1] == '/');
    lemma_behind_last(bare, '/', start);
    assert(bare.skip(start).len() == 0);
}

/// What is said of a word that is not known holds the word in quotes, and an incomplete
/// command is answered with the usage alone.
pub proof fn law_refusals_name_the_word(word: Seq<char>)
    ensures
        forall|error: ToolError<Seq<char>>|
            error == ToolError::UnsupportedFormat(word) || error == ToolError::UnknownCommand(word)
                || error == ToolError::UnknownCaptureCommand(word) || error
                == ToolError::UnknownSimulateOption(word) || error
                == ToolError::UnknownOfflineOption(word) || error == ToolError::UnknownFilter(word)
                ==> tells_with_usage(#[trigger] error_text(error), word),
        error_text(ToolError::Usage) == USAGE@,
        error_text(ToolError::Refused(word)) == word,
{
    assert forall|error: ToolError<Seq<char>>|
        error == ToolError::UnsupportedFormat(word) || error == ToolError::UnknownCommand(word)
            || error == ToolError::UnknownCaptureCommand(word) || error
            == ToolError::UnknownSimulateOption(word) || error == ToolError::UnknownOfflineOption(
            word,
        ) || error == ToolError::UnknownFilter(word) implies tells_with_usage(
        #[trigger] error_text(error),
        word,
    ) by {
        let what = match error {
            ToolError::UnsupportedFormat(_) => "unsupported format "@,
            ToolError::UnknownCommand(_) => "unknown command "@,
            ToolError::UnknownCaptureCommand(_) => "unknown capture command "@,
            ToolError::UnknownSimulateOption(_) => "unknown simulate option "@,
            ToolError::UnknownOfflineOption(_) => "unknown offline option "@,
            _ => "unknown filter "@,
        };
        assert(error_text(error) == what + quoted_of(word) + "\n"@ + USAGE@);
    }
}

/// Whether a text holds a word in quotes and ends in the usage.
pub open spec fn tells_with_usage(text: Seq<char>, word: Seq<char>) -> bool {
    exists|before: Seq<char>| text == #[trigger] (before + quoted_of(word) + "\n"@ + USAGE@)
}

proof fn lemma_capture_words_differ()
    ensures
        "status"@ != "off"@ && "status"@ != "clear"@ && "status"@ != "filter-clear"@ && "status"@
            != "limit"@ && "status"@ != "on"@,
        "off"@ != "clear"@ && "off"@ != "filter-clear"@ && "off"@ != "limit"@ && "off"@ != "on"@,
        "clear"@ != "filter-clear"@ && "clear"@ != "limit"@ && "clear"@ != "on"@,
        "filter-clear"@ != "limit"@ && "filter-clear"@ != "on"@,
        "limit"@ != "on"@,
{
    reveal_strlit("status");
    reveal_strlit("off");
    reveal_strlit("clear");
    reveal_strlit("filter-clear");
    reveal_strlit("limit");
    reveal_strlit("on");
    assert("status"@.len() == 6 && "off"@.len() == 3 && "clear"@.len() == 5 && "filter-clear"@.len()
        == 12 && "limit"@.len() == 5 && "on"@.len() == 2);
    assert("clear"@[0] == 'c' && "limit"@[0] == 'l');
}

/// What is asked of the capture is what the first word says; without one, its status. A limit
/// is the number that was written, and a capture begins with the extent and the filters of all
/// the words behind the first.
pub proof fn law_capture_commands_are_those_named(args: Seq<Seq<char>>, limit: usize)
    ensures
        capture_of(Seq::empty()) == Ok::<CaptureCommand<Seq<char>>, ToolError<Seq<char>>>(
            CaptureCommand::Status,
        ),
        args.len() > 0 ==> (capture_of(args) matches Ok(command) ==> {
            &&& args[0] == "status"@ <==> command is Status
            &&& args[0] == "off"@ <==> command is Off
            &&& args[0] == "clear"@ <==> command is Clear
            &&& args[0] == "filter-clear"@ <==> command is FilterClear
            &&& args[0] == "limit"@ <==> command is Limit
            &&& args[0] == "on"@ <==> command is On
        }),
        args.len() > 0 && (args[0] == "status"@ || args[0] == "off"@ || args[0] == "clear"@
            || args[0] == "filter-clear"@) ==> capture_of(args) is Ok,
        capture_of(seq!["limit"@, decimal_of(limit as nat)]) == Ok::<
            CaptureCommand<Seq<char>>,
            ToolError<Seq<char>>,
        >(CaptureCommand::Limit(limit)),
        capture_of(seq!["limit"@]) == Err::<CaptureCommand<Seq<char>>, ToolError<Seq<char>>>(
            ToolError::Usage,
        ),
        capture_of(seq!["on"@] + args) == (match filters_from(
            filter_words(args),
            0,
            Filters::none(),
        ) {
            Ok(filters) => Ok::<CaptureCommand<Seq<char>>, ToolError<Seq<char>>>(
                CaptureCommand::On { raw: wants_raw(args), filters },
            ),
            Err(error) => Err::<CaptureCommand<Seq<char>>, ToolError<Seq<char>>>(error),
        }),
{
    lemma_capture_words_differ();
    law_decimals_are_read_back(limit as nat, usize::MAX as nat);
    law_readings_agree(decimal_of(limit as nat), usize::MAX as nat);
    assert(seq!["limit"@, decimal_of(limit as nat)][1] == decimal_of(limit as nat));
    assert(seq!["limit"@, decimal_of(limit as nat)][0] == "limit"@);
    assert(seq!["limit"@][0] == "limit"@);
    assert((seq!["on"@] + args)[0] == "on"@);
    assert((seq!["on"@] + args).skip(1) =~= args);
}

/// A watch looks every second unless an interval is written, and reads every other word as a
/// filter.
pub proof fn law_watches_have_an_interval_and_filters(
    rest: Seq<Seq<char>>,
    number: u64,
    field: FilterField,
    value: Seq<char>,
)
    ensures
        watch_of(Seq::empty()) == Ok::<Command<Seq<char>>, ToolError<Seq<char>>>(
            Command::Watch { filters: Filters::none(), interval_ms: 1000 },
        ),
        watch_of(seq!["--interval-ms"@, decimal_of(number as nat)]) == Ok::<
            Command<Seq<char>>,
            ToolError<Seq<char>>,
        >(Command::Watch { filters: Filters::none(), interval_ms: number }),
        field.spec_flag().text() != "--interval-ms"@ && value != "--interval-ms"@ ==> watch_of(
            seq![field.spec_flag().text(), value, "--interval-ms"@, decimal_of(number as nat)],
        ) == Ok::<Command<Seq<char>>, ToolError<Seq<char>>>(
            Command::Watch {
                filters: Filters::<Seq<char>>::none().with(field, value),
                interval_ms: number,
            },
        ),
{
    let none = Filters::<Seq<char>>::none();
    let flag = field.spec_flag().text();
    let timed = seq!["--interval-ms"@, decimal_of(number as nat)];
    law_intervals_are_taken_out(1000, Seq::empty(), flag, Seq::empty(), number);
    law_intervals_are_taken_out(number, Seq::empty(), flag, Seq::empty(), number);
    assert(timed + Seq::empty() =~= timed);
    law_options_and_keys_set_filters(none, field, value, Seq::empty());
    law_options_and_keys_set_filters(none.with(field, value), field, value, Seq::empty());
    let pair = seq![flag, value];
    assert(pair + Seq::empty() =~= pair);
    if flag != "--interval-ms"@ && value != "--interval-ms"@ {
        let all = seq![flag, value, "--interval-ms"@, decimal_of(number as nat)];
        let one = Seq::<Seq<char>>::empty().push(flag);
        law_intervals_are_taken_out(1000, Seq::empty(), flag, seq![value] + timed, number);
        assert(seq![flag] + (seq![value] + timed) =~= all);
        law_intervals_are_taken_out(1000, one, value, timed, number);
        law_intervals_are_taken_out(1000, one.push(value), value, Seq::empty(), number);
        law_intervals_are_taken_out(number, one.push(value), value, Seq::empty(), number);
        assert(one.push(value) =~= pair);
    }
}

/// A word names a filter exactly where it is one of that filter's own, short or long, as an
/// option and as a key; no word names two.
pub proof fn law_filters_are_named_by_their_own_words(word: Seq<char>)
    ensures
        key_field(word) == Some(FilterField::Direction) <==> word == "direction"@ || word == "dir"@,
        key_field(word) == Some(FilterField::Type) <==> word == "type"@,
        key_field(word) == Some(FilterField::Emsg) <==> word == "emsg"@,
        key_field(word) == Some(FilterField::App) <==> word == "app"@ || word == "app_id"@ || word
            == "appid"@,
        key_field(word) == Some(FilterField::Changed) <==> word == "changed"@ || word == "change"@,
        flag_field(word) == Some(FilterField::Direction) <==> word == "--direction"@,
        flag_field(word) == Some(FilterField::Type) <==> word == "--type"@,
        flag_field(word) == Some(FilterField::Emsg) <==> word == "--emsg"@,
        flag_field(word) == Some(FilterField::App) <==> word == "--app-id"@ || word == "--app"@,
        flag_field(word) == Some(FilterField::Changed) <==> word == "--changed"@ || word
            == "--change"@,
{
    reveal_strlit("direction");
    reveal_strlit("dir");
    reveal_strlit("type");
    reveal_strlit("emsg");
    reveal_strlit("app");
    reveal_strlit("app_id");
    reveal_strlit("appid");
    reveal_strlit("changed");
    reveal_strlit("change");
    reveal_strlit("--direction");
    reveal_strlit("--type");
    reveal_strlit("--emsg");
    reveal_strlit("--app-id");
    reveal_strlit("--app");
    reveal_strlit("--changed");
    reveal_strlit("--change");
    assert("dir"@[0] == 'd' && "app"@[0] == 'a' && "change"@[0] == 'c' && "app_id"@[0] == 'a');
    assert("type"@[0] == 't' && "emsg"@[0] == 'e' && "--type"@[2] == 't' && "--emsg"@[2] == 'e');
    assert("direction"@.len() == 9 && "type"@.len() == 4 && "emsg"@.len() == 4 && "changed"@.len()
        == 7 && "appid"@.len() == 5 && "app_id"@.len() == 6 && "change"@.len() == 6 && "dir"@.len()
        == 3 && "app"@.len() == 3);
    assert("--direction"@.len() == 11 && "--app-id"@.len() == 8 && "--app"@.len() == 5
        && "--changed"@.len() == 9 && "--change"@.len() == 8 && "--type"@.len() == 6
        && "--emsg"@.len() == 6);
    assert("--app-id"@[2] == 'a' && "--change"@[2] == 'c');
}

} // verus!
