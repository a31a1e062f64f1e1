//! A line processor that shows tabs as `⇥` and line feeds as `⏎`, in yellow.
use super::processor::{cells_width, transformed, wrapped, rows_view, BaseLineProcessor, LineProcessor, SymbolMap};
use super::{cells_view, Color, Style, StyledGrapheme};
use vstd::prelude::*;

verus! {

/// The symbol standing for a tab.
pub open spec fn tab_symbol() -> Seq<char> {
    seq!['\u{21e5}']
}

/// The symbol standing for a line feed.
pub open spec fn nl_symbol() -> Seq<char> {
    seq!['\u{23ce}']
}

/// Shows tabs and line feeds with yellow symbols.
pub struct LineStylizer;

impl LineProcessor for LineStylizer {
    fn process_line(&self, line: Vec<StyledGrapheme>, width: u16, default_bg: Color) -> (rows: Vec<Vec<StyledGrapheme>>)
        ensures
            rows_view(rows@) == wrapped(transformed(tab_symbol(), nl_symbol(), cells_view(line@), 0), width as int),
    {
        let tab = StyledGrapheme { symbol: "\u{21e5}".to_owned(), style: Style::new().fg(Color::Yellow) };
        let nl = StyledGrapheme { symbol: "\u{23ce}".to_owned(), style: Style::new().fg(Color::Yellow) };
        proof {
            reveal_strlit("\u{21e5}");
            reveal_strlit("\u{23ce}");
            assert("\u{21e5}"@ =~= tab_symbol());
            assert("\u{23ce}"@ =~= nl_symbol());
        }
        let processor = BaseLineProcessor { symbols: SymbolMap { tab, nl } };
        processor.process_line(line, width, default_bg)
    }
}

} // verus!
