//! A palette as text: a table of comma-separated values, a JSON object and an
//! HTML page. Channel values are written in decimal, without padding.

use vstd::prelude::*;
use crate::color::Color;
use crate::decimal::decimal;
use crate::decimal::push_decimal;

verus! {

/// The first line of the table of comma-separated values.
pub const CSV_HEADER: &'static str = "R, G, B, A\n";

/// What separates two channel values in a row of the table.
pub const CSV_SEPARATOR: &'static str = ", ";

/// What ends a row of the table.
pub const CSV_ROW_END: &'static str = "\n";

/// What opens the JSON object and the list of its colours.
pub const JSON_OPEN: &'static str = "{\"palette\": [";

/// What closes the list of colours and the JSON object.
pub const JSON_CLOSE: &'static str = "]}";

/// What separates two colours in the JSON list.
pub const JSON_SEPARATOR: &'static str = ",";

/// What stands before the red value of a colour in the JSON list.
pub const JSON_RED: &'static str = "{ \"r\": ";

/// What stands before the green value.
pub const JSON_GREEN: &'static str = ", \"g\": ";

/// What stands before the blue value.
pub const JSON_BLUE: &'static str = ", \"b\": ";

/// What stands before the alpha value.
pub const JSON_ALPHA: &'static str = ", \"a\": ";

/// What closes a colour in the JSON list.
pub const JSON_COLOR_END: &'static str = " }";

/// The HTML page up to the address of the image.
pub const HTML_HEAD: &'static str =
    "<!DOCTYPE html><head><meta content=\"width=device-width, initial-scale=1\" http-equiv=\"Content-Type\"><meta content=\"utf-8\" http-equiv=\"encoding\"><style> img {display: block; margin-left: auto; margin-right: auto; }</style></head><html><body><img src=\"";

/// The HTML page from the address of the image to the first tile.
pub const HTML_GRID: &'static str =
    "\" alt=\"Input image\" class=\"centered\"></b><div style=\"display: grid;align-items: center;justify-content: center;gap: 5px;width: 100%;padding-top: 10px;grid-auto-flow: column;\">";

/// A tile up to its red value.
pub const HTML_TILE: &'static str = "<div style=\"background-color:rgb(";

/// What separates two channel values in a tile.
pub const HTML_TILE_SEPARATOR: &'static str = ",";

/// A tile from its blue value on.
pub const HTML_TILE_END: &'static str =
    ");display: flex;justify-content: center;align-items: center;height: 100px;width: 100px;\"></div>";

/// The HTML page after the last tile.
pub const HTML_TAIL: &'static str = "</div></body></html>";

/// One row of the table: the four channels in decimal, separated by a comma
/// and a space, and a line feed.
pub open spec fn csv_row(color: Color) -> Seq<char> {
    decimal(color.r as nat) + CSV_SEPARATOR@ + decimal(color.g as nat) + CSV_SEPARATOR@ + decimal(
        color.b as nat,
    ) + CSV_SEPARATOR@ + decimal(color.a as nat) + CSV_ROW_END@
}

/// The rows of the table, one for each colour, in their order.
pub open spec fn csv_rows(colors: Seq<Color>) -> Seq<char>
    decreases colors.len(),
{
    if colors.len() == 0 {
        Seq::empty()
    } else {
        csv_rows(colors.drop_last()) + csv_row(colors.last())
    }
}

/// The table: the header, then the rows.
pub open spec fn csv_text(colors: Seq<Color>) -> Seq<char> {
    CSV_HEADER@ + csv_rows(colors)
}

/// One colour of the JSON list: an object with the members `r`, `g`, `b` and
/// `a`, in that order.
pub open spec fn json_color(color: Color) -> Seq<char> {
    JSON_RED@ + decimal(color.r as nat) + JSON_GREEN@ + decimal(color.g as nat) + JSON_BLUE@
        + decimal(color.b as nat) + JSON_ALPHA@ + decimal(color.a as nat) + JSON_COLOR_END@
}

/// The colours of the JSON list, in their order, with a separator between
/// each two.
pub open spec fn json_colors(colors: Seq<Color>) -> Seq<char>
    decreases colors.len(),
{
    if colors.len() == 0 {
        Seq::empty()
    } else if colors.len() == 1 {
        json_color(colors.last())
    } else {
        json_colors(colors.drop_last()) + JSON_SEPARATOR@ + json_color(colors.last())
    }
}

/// The JSON object: one member, `palette`, that lists the colours.
pub open spec fn json_text(colors: Seq<Color>) -> Seq<char> {
    JSON_OPEN@ + json_colors(colors) + JSON_CLOSE@
}

/// One tile of the HTML page: a square in the colour's red, green and blue.
pub open spec fn html_tile(color: Color) -> Seq<char> {
    HTML_TILE@ + decimal(color.r as nat) + HTML_TILE_SEPARATOR@ + decimal(color.g as nat)
        + HTML_TILE_SEPARATOR@ + decimal(color.b as nat) + HTML_TILE_END@
}

/// The tiles of the HTML page, one for each colour, in their order.
pub open spec fn html_tiles(colors: Seq<Color>) -> Seq<char>
    decreases colors.len(),
{
    if colors.len() == 0 {
        Seq::empty()
    } else {
        html_tiles(colors.drop_last()) + html_tile(colors.last())
    }
}

/// The HTML page: the image at `image_file_path`, written as it is, and
/// under it a row of tiles.
pub open spec fn html_text(image_file_path: Seq<char>, colors: Seq<Color>) -> Seq<char> {
    HTML_HEAD@ + image_file_path + HTML_GRID@ + html_tiles(colors) + HTML_TAIL@
}

fn push_csv_row(text: &mut String, color: Color)
    ensures
        final(text)@ == old(text)@ + csv_row(color),
{
    push_decimal(text, color.r);
    text.append(CSV_SEPARATOR);
    push_decimal(text, color.g);
    text.append(CSV_SEPARATOR);
    push_decimal(text, color.b);
    text.append(CSV_SEPARATOR);
    push_decimal(text, color.a);
    text.append(CSV_ROW_END);
    assert(text@ =~= old(text)@ + csv_row(color));
}

fn push_json_color(text: &mut String, color: Color)
    ensures
        final(text)@ == old(text)@ + json_color(color),
{
    text.append(JSON_RED);
    push_decimal(text, color.r);
    text.append(JSON_GREEN);
    push_decimal(text, color.g);
    text.append(JSON_BLUE);
    push_decimal(text, color.b);
    text.append(JSON_ALPHA);
    push_decimal(text, color.a);
    text.append(JSON_COLOR_END);
    assert(text@ =~= old(text)@ + json_color(color));
}

fn push_html_tile(text: &mut String, color: Color)
    ensures
        final(text)@ == old(text)@ + html_tile(color),
{
    text.append(HTML_TILE);
    push_decimal(text, color.r);
    text.append(HTML_TILE_SEPARATOR);
    push_decimal(text, color.g);
    text.append(HTML_TILE_SEPARATOR);
    push_decimal(text, color.b);
    text.append(HTML_TILE_END);
    assert(text@ =~= old(text)@ + html_tile(color));
}

/// Returns the palette as a table of comma-separated values: the header
/// `R, G, B, A`, then one row for each colour.
pub fn csv_document(colors: &[Color]) -> (text: String)
    ensures
        text@ == csv_text(colors@),
{
    let mut text = String::new();
    text.append(CSV_HEADER);
    let mut i: usize = 0;
    while i < colors.len()
        invariant
            i <= colors@.len(),
            text@ == CSV_HEADER@ + csv_rows(colors@.take(i as int)),
        decreases colors@.len() - i,
    {
        assert(colors@.take(i + 1).drop_last() == colors@.take(i as int));
        push_csv_row(&mut text, colors[i]);
        i = i + 1;
        assert(text@ =~= CSV_HEADER@ + csv_rows(colors@.take(i as int)));
    }
    assert(colors@.take(i as int) == colors@);
    text
}

/// Returns the palette as a JSON object whose one member, `palette`, lists
/// the colours.
pub fn json_document(colors: &[Color]) -> (text: String)
    ensures
        text@ == json_text(colors@),
{
    let mut text = String::new();
    text.append(JSON_OPEN);
    let mut i: usize = 0;
    while i < colors.len()
        invariant
            i <= colors@.len(),
            text@ == JSON_OPEN@ + json_colors(colors@.take(i as int)),
        decreases colors@.len() - i,
    {
        assert(colors@.take(i + 1).drop_last() == colors@.take(i as int));
        if i > 0 {
            text.append(JSON_SEPARATOR);
        }
        push_json_color(&mut text, colors[i]);
        i = i + 1;
        assert(text@ =~= JSON_OPEN@ + json_colors(colors@.take(i as int)));
    }
    assert(colors@.take(i as int) == colors@);
    text.append(JSON_CLOSE);
    text
}

/// Returns an HTML page that shows the image at `image_file_path` and, under
/// it, one tile for each colour of the palette.
pub fn html_document(image_file_path: &str, colors: &[Color]) -> (text: String)
    ensures
        text@ == html_text(image_file_path@, colors@),
{
    let mut text = String::new();
    text.append(HTML_HEAD);
    text.append(image_file_path);
    text.append(HTML_GRID);
    let ghost head = text@;
    let mut i: usize = 0;
    while i < colors.len()
        invariant
            i <= colors@.len(),
            head == HTML_HEAD@ + image_file_path@ + HTML_GRID@,
            text@ == head + html_tiles(colors@.take(i as int)),
        decreases colors@.len() - i,
    {
        assert(colors@.take(i + 1).drop_last() == colors@.take(i as int));
        push_html_tile(&mut text, colors[i]);
        i = i + 1;
        assert(text@ =~= head + html_tiles(colors@.take(i as int)));
    }
    assert(colors@.take(i as int) == colors@);
    text.append(HTML_TAIL);
    text
}

} // verus!
