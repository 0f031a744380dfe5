//! Watching the client's packets: which of them are new, and how they are printed.
use crate::json::{json_table, json_table_of, reading_view, readings_view, table_view, JsonReading};
use crate::packet_tool::{
    filter_suffix, ok_payload, payload_of, suffix_of, text_option, Filters, ToolError,
};
use crate::paths::texts_of;
use crate::text::{concat, decimal, decimal_of};
use vstd::prelude::*;
use vstd::string::*;

verus! {

/// What a round of a watch asks for.
pub open spec fn watch_request_of(filters: Filters<Seq<char>>) -> Seq<char> {
    "packet list"@ + suffix_of(filters) + " --json"@
}

pub fn watch_request(filters: &Filters<String>) -> (request: String)
    ensures
        request@ == watch_request_of(filters@),
{
    let mut request: String = concat("packet list", filter_suffix(filters).as_str());
    request.append(" --json");
    request
}

/// What the client says about a packet. What it leaves out is missing here too.
pub struct SummaryRow<T> {
    pub id: Option<u64>,
    pub direction: Option<T>,
    pub emsg: Option<u64>,
    pub packet_type: Option<T>,
    pub changed: Option<T>,
    pub app_ids: Option<T>,
}

impl View for SummaryRow<String> {
    type V = SummaryRow<Seq<char>>;

    open spec fn view(&self) -> SummaryRow<Seq<char>> {
        SummaryRow {
            id: self.id,
            direction: text_option(self.direction),
            emsg: self.emsg,
            packet_type: text_option(self.packet_type),
            changed: text_option(self.changed),
            app_ids: text_option(self.app_ids),
        }
    }
}

/// The rows of a list.
pub open spec fn rows_view(rows: Seq<Option<SummaryRow<String>>>) -> Seq<
    Option<SummaryRow<Seq<char>>>,
> {
    rows.map_values(
        |row: Option<SummaryRow<String>>|
            match row {
                Some(row) => Some(row@),
                None => None,
            },
    )
}

/// The places of a packet's summary that a watch reads.
pub open spec fn summary_places() -> Seq<Seq<char>> {
    seq![
        "/summary"@,
        "/summary/id"@,
        "/summary/direction"@,
        "/summary/emsg"@,
        "/summary/type"@,
        "/summary/change"@,
        "/summary/app_ids"@,
    ]
}

fn places() -> (places: Vec<String>)
    ensures
        texts_of(places@) == summary_places(),
{
    let places: Vec<String> = vec![
        "/summary".to_owned(),
        "/summary/id".to_owned(),
        "/summary/direction".to_owned(),
        "/summary/emsg".to_owned(),
        "/summary/type".to_owned(),
        "/summary/change".to_owned(),
        "/summary/app_ids".to_owned(),
    ];
    assert(texts_of(places@) =~= summary_places());
    places
}

/// The number at a place, if there is one.
pub open spec fn number_at(reading: Option<JsonReading<Seq<char>>>) -> Option<u64> {
    match reading {
        Some(reading) => reading.number,
        None => None,
    }
}

/// The text at a place, if there is one.
pub open spec fn text_at(reading: Option<JsonReading<Seq<char>>>) -> Option<Seq<char>> {
    match reading {
        Some(reading) => reading.text,
        None => None,
    }
}

/// What stands at a place as JSON, if anything does.
pub open spec fn json_at(reading: Option<JsonReading<Seq<char>>>) -> Option<Seq<char>> {
    match reading {
        Some(reading) => Some(reading.json),
        None => None,
    }
}

/// What an item of the client's list says, from what stands at the places of its summary.
pub open spec fn row_of(readings: Seq<Option<JsonReading<Seq<char>>>>) -> Option<
    SummaryRow<Seq<char>>,
> {
    if readings[0] is None {
        None
    } else {
        Some(
            SummaryRow {
                id: number_at(readings[1]),
                direction: text_at(readings[2]),
                emsg: number_at(readings[3]),
                packet_type: text_at(readings[4]),
                changed: text_at(readings[5]),
                app_ids: json_at(readings[6]),
            },
        )
    }
}

fn number_of(reading: &Option<JsonReading<String>>) -> (number: Option<u64>)
    ensures
        number == number_at(reading_view(*reading)),
{
    match reading {
        Some(reading) => reading.number,
        None => None,
    }
}

fn text_of(reading: &Option<JsonReading<String>>) -> (text: Option<String>)
    ensures
        text_option(text) == text_at(reading_view(*reading)),
{
    match reading {
        Some(reading) => match &reading.text {
            Some(text) => Some(text.clone()),
            None => None,
        },
        None => None,
    }
}

fn json_of(reading: &Option<JsonReading<String>>) -> (json: Option<String>)
    ensures
        text_option(json) == json_at(reading_view(*reading)),
{
    match reading {
        Some(reading) => Some(reading.json.clone()),
        None => None,
    }
}

/// Reads one item of the client's list.
pub fn read_row(readings: &Vec<Option<JsonReading<String>>>) -> (row: Option<SummaryRow<String>>)
    requires
        readings@.len() == summary_places().len(),
    ensures
        match row {
            Some(row) => row_of(readings_view(readings@)) == Some(row@),
            None => row_of(readings_view(readings@)) is None,
        },
{
    if readings[0].is_none() {
        return None;
    }
    Some(
        SummaryRow {
            id: number_of(&readings[1]),
            direction: text_of(&readings[2]),
            emsg: number_of(&readings[3]),
            packet_type: text_of(&readings[4]),
            changed: text_of(&readings[5]),
            app_ids: json_of(&readings[6]),
        },
    )
}

/// A text with spaces behind it up to a width.
pub open spec fn padded(text: Seq<char>, width: nat) -> Seq<char>
    decreases width - text.len(),
{
    if text.len() >= width {
        text
    } else {
        padded(text.push(' '), width)
    }
}

fn pad(text: &str, width: usize) -> (wide: String)
    ensures
        wide@ == padded(text@, width as nat),
{
    let mut wide: String = text.to_owned();
    let mut size: usize = text.unicode_len();
    while size < width
        invariant
            size == wide@.len(),
            padded(text@, width as nat) == padded(wide@, width as nat),
        decreases width - size,
    {
        wide.push(' ');
        size = size + 1;
    }
    wide
}

/// A text, or what stands for a missing one.
pub open spec fn or_text(text: Option<Seq<char>>, missing: Seq<char>) -> Seq<char> {
    match text {
        Some(text) => text,
        None => missing,
    }
}

/// The id of a packet; zero where it has none.
pub open spec fn row_id(row: SummaryRow<Seq<char>>) -> u64 {
    match row.id {
        Some(id) => id,
        None => 0,
    }
}

/// The line about a packet.
pub open spec fn row_line(row: SummaryRow<Seq<char>>) -> Seq<char> {
    "#"@ + padded(decimal_of(row_id(row) as nat), 4) + " "@ + padded(
        or_text(row.direction, "-"@),
        4,
    ) + " emsg="@ + padded(
        match row.emsg {
            Some(emsg) => decimal_of(emsg as nat),
            None => "-"@,
        },
        5,
    ) + " type="@ + padded(or_text(row.packet_type, "-"@), 16) + " app="@ + or_text(
        row.app_ids,
        "null"@,
    ) + " change="@ + or_text(row.changed, "-"@)
}

fn or_str<'a>(text: &'a Option<String>, missing: &'a str) -> (found: &'a str)
    ensures
        found@ == or_text(text_option(*text), missing@),
{
    match text {
        Some(text) => text.as_str(),
        None => missing,
    }
}

fn id_of(row: &SummaryRow<String>) -> (id: u64)
    ensures
        id == row_id(row@),
{
    match row.id {
        Some(id) => id,
        None => 0,
    }
}

/// Prints what is known of a packet in columns.
pub fn format_summary_json(row: &SummaryRow<String>) -> (line: String)
    ensures
        line@ == row_line(row@),
{
    let emsg: String = match row.emsg {
        Some(emsg) => decimal(emsg),
        None => "-".to_owned(),
    };
    let mut line: String = concat("#", pad(decimal(id_of(row)).as_str(), 4).as_str());
    line.append(" ");
    line.append(pad(or_str(&row.direction, "-"), 4).as_str());
    line.append(" emsg=");
    line.append(pad(emsg.as_str(), 5).as_str());
    line.append(" type=");
    line.append(pad(or_str(&row.packet_type, "-"), 16).as_str());
    line.append(" app=");
    line.append(or_str(&row.app_ids, "null"));
    line.append(" change=");
    line.append(or_str(&row.changed, "-"));
    line
}

/// What a round prints, and up to which packet the watch has seen everything then.
#[verifier::ext_equal]
pub struct RoundView {
    pub lines: Seq<Seq<char>>,
    pub last_id: u64,
}

/// What a list of packets gives a watch that has seen everything up to `last_id`: each packet
/// with a higher id than any before it is new.
pub open spec fn round_of(rows: Seq<Option<SummaryRow<Seq<char>>>>, last_id: u64) -> RoundView
    decreases rows.len(),
{
    if rows.len() == 0 {
        RoundView { lines: Seq::empty(), last_id }
    } else {
        let before = round_of(rows.drop_last(), last_id);
        match rows.last() {
            Some(row) => if row_id(row) > before.last_id {
                RoundView { lines: before.lines.push(row_line(row)), last_id: row_id(row) }
            } else {
                before
            },
            None => before,
        }
    }
}

/// What a round printed.
pub struct WatchRound {
    pub lines: Vec<String>,
    pub last_id: u64,
}

impl View for WatchRound {
    type V = RoundView;

    open spec fn view(&self) -> RoundView {
        RoundView { lines: texts_of(self.lines@), last_id: self.last_id }
    }
}

/// Prints the packets of a list that are new.
pub fn new_packets(rows: &Vec<Option<SummaryRow<String>>>, last_id: u64) -> (round: WatchRound)
    ensures
        round@ == round_of(rows_view(rows@), last_id),
{
    let ghost all = rows_view(rows@);
    let mut round: WatchRound = WatchRound { lines: Vec::new(), last_id };
    let mut i: usize = 0;
    assert(all.take(0) =~= Seq::empty());
    assert(texts_of(round.lines@) =~= Seq::empty());
    while i < rows.len()
        invariant
            i <= rows@.len(),
            all == rows_view(rows@),
            round@ == round_of(all.take(i as int), last_id),
        decreases rows@.len() - i,
    {
        assert(all.take(i + 1).drop_last() =~= all.take(i as int));
        assert(all.take(i + 1).last() == all[i as int]);
        if let Some(row) = &rows[i] {
            assert(all[i as int] == Some(row@));
            let id: u64 = id_of(row);
            if id > round.last_id {
                let ghost before = texts_of(round.lines@);
                round.lines.push(format_summary_json(row));
                round.last_id = id;
                assert(texts_of(round.lines@) =~= before.push(row_line(row@)));
            }
        }
        i = i + 1;
    }
    assert(all.take(i as int) =~= all);
    round
}

/// What an answer of the client gives a watch.
pub open spec fn watch_of_response(response: Seq<char>, last_id: u64) -> Result<
    RoundView,
    ToolError<Seq<char>>,
> {
    match payload_of(response) {
        None => Err(ToolError::Refused(response)),
        Some(json) => match json_table_of(json, summary_places()) {
            Err(error) => Err(ToolError::NotJson(error)),
            Ok(None) => Err(ToolError::NotAnArray),
            Ok(Some(table)) => Ok(
                round_of(
                    table.map_values(
                        |readings: Seq<Option<JsonReading<Seq<char>>>>| row_of(readings),
                    ),
                    last_id,
                ),
            ),
        },
    }
}

/// One round of a watch: the packets of the client's answer that are new.
pub fn watch_round(response: &str, last_id: u64) -> (round: Result<WatchRound, ToolError<String>>)
    ensures
        match round {
            Ok(round) => watch_of_response(response@, last_id) == Ok::<
                RoundView,
                ToolError<Seq<char>>,
            >(round@),
            Err(error) => watch_of_response(response@, last_id) == Err::<
                RoundView,
                ToolError<Seq<char>>,
            >(error@),
        },
{
    let json: String = match ok_payload(response) {
        Ok(json) => json,
        Err(error) => {
            return Err(error);
        },
    };
    let places: Vec<String> = places();
    assert(texts_of(places@).len() == places@.len());
    let table: Vec<Vec<Option<JsonReading<String>>>> = match json_table(json.as_str(), &places) {
        Err(error) => {
            return Err(ToolError::NotJson(error));
        },
        Ok(None) => {
            return Err(ToolError::NotAnArray);
        },
        Ok(Some(table)) => table,
    };
    let ghost wanted = table_view(table@).map_values(
        |readings: Seq<Option<JsonReading<Seq<char>>>>| row_of(readings),
    );
    let mut rows: Vec<Option<SummaryRow<String>>> = Vec::new();
    let mut i: usize = 0;
    while i < table.len()
        invariant
            i <= table@.len(),
            rows@.len() == i,
            wanted == table_view(table@).map_values(
                |readings: Seq<Option<JsonReading<Seq<char>>>>| row_of(readings),
            ),
            forall|k: int|
                0 <= k < table@.len() ==> (#[trigger] table@[k])@.len() == summary_places().len(),
            forall|k: int| 0 <= k < i ==> #[trigger] rows_view(rows@)[k] == wanted[k],
        decreases table@.len() - i,
    {
        let ghost before = rows_view(rows@);
        rows.push(read_row(&table[i]));
        assert(rows_view(rows@).drop_last() =~= before);
        assert forall|k: int| 0 <= k < i + 1 implies #[trigger] rows_view(rows@)[k]
            == wanted[k] by {
            if k < i {
                assert(rows_view(rows@)[k] == before[k]);
            }
        }
        i = i + 1;
    }
    assert(rows_view(rows@) =~= wanted);
    Ok(new_packets(&rows, last_id))
}

/// A packet is printed once: what has been seen never goes back, no packet of a list is
/// above it afterwards, and the same list prints nothing the next time.
pub proof fn law_packets_are_printed_once(rows: Seq<Option<SummaryRow<Seq<char>>>>, last_id: u64)
    ensures
        ({
            let round = round_of(rows, last_id);
            &&& round.last_id >= last_id
            &&& forall|i: int|
                0 <= i < rows.len() && (#[trigger] rows[i]) is Some ==> row_id(rows[i]->0)
                    <= round.last_id
            &&& round_of(rows, round.last_id) == (RoundView {
                lines: Seq::empty(),
                last_id: round.last_id,
            })
        }),
{
    lemma_round_covers(rows, last_id);
    lemma_seen_rows_are_silent(rows, round_of(rows, last_id).last_id);
}

proof fn lemma_round_covers(rows: Seq<Option<SummaryRow<Seq<char>>>>, last_id: u64)
    ensures
        round_of(rows, last_id).last_id >= last_id,
        forall|i: int|
            0 <= i < rows.len() && (#[trigger] rows[i]) is Some ==> row_id(rows[i]->0) <= round_of(
                rows,
                last_id,
            ).last_id,
    decreases rows.len(),
{
    if rows.len() > 0 {
        let before = rows.drop_last();
        lemma_round_covers(before, last_id);
        assert forall|i: int| 0 <= i < rows.len() && (#[trigger] rows[i]) is Some implies row_id(
            rows[i]->0,
        ) <= round_of(rows, last_id).last_id by {
            if i < rows.len() - 1 {
                assert(before[i] == rows[i]);
            }
        }
    }
}

proof fn lemma_seen_rows_are_silent(rows: Seq<Option<SummaryRow<Seq<char>>>>, last_id: u64)
    requires
        forall|i: int|
            0 <= i < rows.len() && (#[trigger] rows[i]) is Some ==> row_id(rows[i]->0) <= last_id,
    ensures
        round_of(rows, last_id) == (RoundView { lines: Seq::empty(), last_id }),
    decreases rows.len(),
{
    if rows.len() > 0 {
        let before = rows.drop_last();
        assert forall|i: int| 0 <= i < before.len() && (#[trigger] before[i]) is Some implies row_id(
            before[i]->0,
        ) <= last_id by {
            assert(before[i] == rows[i]);
        }
        lemma_seen_rows_are_silent(before, last_id);
        assert(rows.last() == rows[rows.len() - 1]);
    }
}

/// A packet is printed exactly where its id is above all that has been seen: above what was
/// seen before the list, and above every packet that stands before it in the list.
pub proof fn law_news_are_printed(
    rows: Seq<Option<SummaryRow<Seq<char>>>>,
    last_id: u64,
    place: int,
    line: Seq<char>,
)
    ensures
        0 <= place < rows.len() && is_news(rows, last_id, place) ==> round_of(
            rows,
            last_id,
        ).lines.contains(row_line(rows[place]->0)),
        round_of(rows, last_id).lines.contains(line) ==> exists|other: int|
            0 <= other < rows.len() && #[trigger] is_news(rows, last_id, other) && line == row_line(
                rows[other]->0,
            ),
        round_of(rows, last_id).last_id == last_id || exists|other: int|
            0 <= other < rows.len() && #[trigger] is_news(rows, last_id, other) && round_of(
                rows,
                last_id,
            ).last_id == row_id(rows[other]->0),
    decreases rows.len(),
{
    if rows.len() > 0 {
        let rest = rows.drop_last();
        let last = rows.len() - 1;
        let before = round_of(rest, last_id);
        let after = round_of(rows, last_id);
        law_news_are_printed(rest, last_id, place, line);
        lemma_round_covers(rest, last_id);
        assert(forall|k: int| 0 <= k < rest.len() ==> rest[k] == rows[k]);
        assert(rows.last() == rows[last]);
        assert forall|other: int| 0 <= other < rest.len() implies is_news(rest, last_id, other)
            == is_news(rows, last_id, other) by {
            assert(forall|k: int| 0 <= k < other ==> rest[k] == rows[k]);
        }
        if rows[last] is Some {
            assert(is_news(rows, last_id, last) <==> row_id(rows[last]->0) > before.last_id) by {
                if is_news(rows, last_id, last) && before.last_id != last_id {
                    let other = choose|other: int|
                        0 <= other < rest.len() && #[trigger] is_news(rest, last_id, other)
                            && before.last_id == row_id(rest[other]->0);
                    assert(rows[other] is Some);
                }
            }
            if row_id(rows[last]->0) > before.last_id {
                assert(after.lines[after.lines.len() - 1] == row_line(rows[last]->0));
                if 0 <= place < last && is_news(rows, last_id, place) {
                    let k = choose|k: int|
                        0 <= k < before.lines.len() && before.lines[k] == row_line(
                            rows[place]->0,
                        );
                    assert(after.lines[k] == before.lines[k]);
                }
                if after.lines.contains(line) && !before.lines.contains(line) {
                    let k = choose|k: int| 0 <= k < after.lines.len() && after.lines[k] == line;
                    if k < before.lines.len() {
                        assert(before.lines[k] == line);
                    }
                }
            }
        }
        if before.lines.contains(line) {
            let other = choose|other: int|
                0 <= other < rest.len() && #[trigger] is_news(rest, last_id, other) && line
                    == row_line(rest[other]->0);
            assert(is_news(rows, last_id, other));
        }
        if after.last_id != last_id && after == before {
            let other = choose|other: int|
                0 <= other < rest.len() && #[trigger] is_news(rest, last_id, other)
                    && before.last_id == row_id(rest[other]->0);
            assert(is_news(rows, last_id, other));
        }
    }
}

/// Whether the packet at a place has a higher id than all that was seen before it.
pub open spec fn is_news(
    rows: Seq<Option<SummaryRow<Seq<char>>>>,
    last_id: u64,
    place: int,
) -> bool {
    &&& rows[place] is Some
    &&& row_id(rows[place]->0) > last_id
    &&& forall|k: int|
        0 <= k < place && (#[trigger] rows[k]) is Some ==> row_id(rows[k]->0) < row_id(
            rows[place]->0,
        )
}

/// A list with new packets in the order of their ids is printed whole, one line for each, in
/// that order.
pub proof fn law_ordered_news_are_printed_in_order(
    rows: Seq<Option<SummaryRow<Seq<char>>>>,
    last_id: u64,
)
    requires
        forall|i: int| 0 <= i < rows.len() ==> (#[trigger] rows[i]) is Some,
        forall|i: int| 0 <= i < rows.len() ==> row_id((#[trigger] rows[i])->0) > last_id,
        forall|i: int, j: int|
            0 <= i < j < rows.len() ==> row_id((#[trigger] rows[i])->0) < row_id(
                (#[trigger] rows[j])->0,
            ),
    ensures
        ({
            let round = round_of(rows, last_id);
            &&& round.lines.len() == rows.len()
            &&& forall|i: int|
                0 <= i < rows.len() ==> #[trigger] round.lines[i] == row_line(rows[i]->0)
            &&& rows.len() > 0 ==> round.last_id == row_id(rows.last()->0)
            &&& rows.len() == 0 ==> round.last_id == last_id
        }),
    decreases rows.len(),
{
    if rows.len() > 0 {
        let rest = rows.drop_last();
        assert(forall|k: int| 0 <= k < rest.len() ==> rest[k] == rows[k]);
        law_ordered_news_are_printed_in_order(rest, last_id);
        assert(rows.last() == rows[rows.len() - 1]);
        if rest.len() > 0 {
            assert(rest.last() == rows[rows.len() - 2]);
        }
    }
}

/// Filling up a column keeps the text in front, reaches the width, and adds spaces only.
pub proof fn law_columns_keep_their_text(text: Seq<char>, width: nat)
    ensures
        text.is_prefix_of(padded(text, width)),
        padded(text, width).len() == if text.len() >= width {
            text.len()
        } else {
            width
        },
        forall|k: int|
            text.len() <= k < padded(text, width).len() ==> #[trigger] padded(text, width)[k]
                == ' ',
    decreases width - text.len(),
{
    if text.len() < width {
        law_columns_keep_their_text(text.push(' '), width);
        let wide = padded(text.push(' '), width);
        assert(text.push(' ').is_prefix_of(wide));
        assert(wide.subrange(0, text.len() as int + 1) =~= text.push(' '));
        assert(text =~= wide.subrange(0, text.len() as int)) by {
            assert forall|k: int| 0 <= k < text.len() implies text[k] == wide[k] by {
                assert(text.push(' ')[k] == wide.subrange(0, text.len() as int + 1)[k]);
            }
        }
        assert(wide[text.len() as int] == ' ') by {
            assert(text.push(' ')[text.len() as int] == wide.subrange(
                0,
                text.len() as int + 1,
            )[text.len() as int]);
        }
    }
}

/// An item is a row exactly where it has a summary, and each part of the row is what stands at
/// its own place of the summary.
pub proof fn law_rows_hold_what_stands_at_their_places(
    readings: Seq<Option<JsonReading<Seq<char>>>>,
    k: int,
)
    requires
        readings.len() == summary_places().len(),
        0 <= k < summary_places().len(),
    ensures
        ({
            let place = summary_places()[k];
            let row = row_of(readings);
            &&& place == "/summary"@ ==> (row is Some <==> readings[k] is Some)
            &&& row is Some && place == "/summary/id"@ ==> row->0.id == (match readings[k] {
                Some(reading) => reading.number,
                None => None,
            })
            &&& row is Some && place == "/summary/direction"@ ==> row->0.direction == (
            match readings[k] {
                Some(reading) => reading.text,
                None => None,
            })
            &&& row is Some && place == "/summary/emsg"@ ==> row->0.emsg == (match readings[k] {
                Some(reading) => reading.number,
                None => None,
            })
            &&& row is Some && place == "/summary/type"@ ==> row->0.packet_type == (
            match readings[k] {
                Some(reading) => reading.text,
                None => None,
            })
            &&& row is Some && place == "/summary/change"@ ==> row->0.changed == (
            match readings[k] {
                Some(reading) => reading.text,
                None => None,
            })
            &&& row is Some && place == "/summary/app_ids"@ ==> row->0.app_ids == (
            match readings[k] {
                Some(reading) => Some(reading.json),
                None => None,
            })
        }),
{
    reveal_strlit("/summary");
    reveal_strlit("/summary/id");
    reveal_strlit("/summary/direction");
    reveal_strlit("/summary/emsg");
    reveal_strlit("/summary/type");
    reveal_strlit("/summary/change");
    reveal_strlit("/summary/app_ids");
    assert("/summary/emsg"@[9] == 'e' && "/summary/type"@[9] == 't');
    let places = summary_places();
    assert(places[0].len() == 8 && places[1].len() == 11 && places[2].len() == 18
        && places[3].len() == 13 && places[4].len() == 13 && places[5].len() == 15
        && places[6].len() == 16);
    assert(places[3][9] == 'e' && places[4][9] == 't');
    assert(k == 0 || k == 1 || k == 2 || k == 3 || k == 4 || k == 5 || k == 6);
}

/// A refused answer, one that is not JSON and one that is no list stop a watch; a list is
/// read item by item, one row for each.
pub proof fn law_lists_are_read_item_by_item(response: Seq<char>, last_id: u64)
    ensures
        watch_of_response(response, last_id) is Ok <==> payload_of(response) is Some
            && json_table_of(payload_of(response)->0, summary_places()) is Ok && json_table_of(
            payload_of(response)->0,
            summary_places(),
        )->Ok_0 is Some,
        payload_of(response) is None ==> watch_of_response(response, last_id) == Err::<
            RoundView,
            ToolError<Seq<char>>,
        >(ToolError::Refused(response)),
        watch_of_response(response, last_id) is Ok ==> {
            let table = json_table_of(payload_of(response)->0, summary_places())->Ok_0->0;
            exists|rows: Seq<Option<SummaryRow<Seq<char>>>>|
                rows.len() == table.len() && (forall|i: int|
                    0 <= i < rows.len() ==> #[trigger] rows[i] == row_of(table[i]))
                    && watch_of_response(response, last_id)->Ok_0 == #[trigger] round_of(
                    rows,
                    last_id,
                )
        },
{
    if watch_of_response(response, last_id) is Ok {
        let table = json_table_of(payload_of(response)->0, summary_places())->Ok_0->0;
        let rows = table.map_values(
            |readings: Seq<Option<JsonReading<Seq<char>>>>| row_of(readings),
        );
        assert(watch_of_response(response, last_id)->Ok_0 == round_of(rows, last_id));
    }
}

} // verus!
