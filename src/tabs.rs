use vstd::prelude::*;

verus! {

/// The number of tabs of the waveform screen.
pub const TAB_COUNT: usize = 4;

/// The tab of the parser listing.
pub const PARSER_TAB: usize = 1;

/// The tab of the header table.
pub const HEADER_TAB: usize = 2;

/// The tab of the dump's text.
pub const CODE_TAB: usize = 3;

/// A key press, as the waveform screen tells them apart.
#[derive(Clone, Copy, Debug, PartialEq, Eq, Structural)]
pub enum Key {
    /// Leave the screen.
    Quit,
    /// Go to the next tab.
    Next,
    /// Go to the previous tab.
    Previous,
    /// Move up in the current tab.
    Up,
    /// Move down in the current tab.
    Down,
    /// Any other key.
    Other,
}

/// One line up, never above the first.
pub open spec fn scrolled_up(n: u16) -> u16 {
    if n > 0 {
        (n - 1) as u16
    } else {
        0
    }
}

/// One line down, staying at the last representable line.
pub open spec fn scrolled_down(n: u16) -> u16 {
    if n < u16::MAX {
        (n + 1) as u16
    } else {
        n
    }
}

/// The header row after moving down from `selected`, wrapping at the end.
pub open spec fn row_below(selected: Option<usize>, len: usize) -> usize {
    match selected {
        Some(i) => if i >= len - 1 {
            0
        } else {
            (i + 1) as usize
        },
        None => 0,
    }
}

/// The header row after moving up from `selected`, wrapping at the start.
pub open spec fn row_above(selected: Option<usize>, len: usize) -> usize {
    match selected {
        Some(i) => if i == 0 {
            (len - 1) as usize
        } else {
            (i - 1) as usize
        },
        None => 0,
    }
}

/// Navigation state of the waveform screen: the selected tab, the selected
/// row of the header table, and the scroll offsets of the two text tabs.
#[derive(Debug)]
pub struct App {
    pub titles: Vec<String>,
    pub index: usize,
    pub selected: Option<usize>,
    pub items_length: usize,
    pub scroll_parser_tab: u16,
    pub scroll_vcd_tab: u16,
}

impl App {
    /// A valid tab is selected.
    pub open spec fn wf(&self) -> bool {
        self.titles.len() > 0 && self.index < self.titles.len()
    }

    /// The screen at its start: the plot tab, no row selected, nothing scrolled.
    pub fn new() -> (r: App)
        ensures
            r.wf(),
            r.titles.len() == TAB_COUNT,
            r.titles@.map_values(|t: String| t@) == seq!["Plot"@, "Parser"@, "Header"@, "VCD Code"@],
            r.index == 0,
            r.selected is None,
            r.items_length == 0,
            r.scroll_parser_tab == 0,
            r.scroll_vcd_tab == 0,
    {
        broadcast use vstd::string::to_string_from_display_ensures_for_str;
        let mut titles: Vec<String> = Vec::new();
        titles.push("Plot".to_string());
        titles.push("Parser".to_string());
        titles.push("Header".to_string());
        titles.push("VCD Code".to_string());
        assert(titles@.map_values(|t: String| t@) =~= seq!["Plot"@, "Parser"@, "Header"@, "VCD Code"@]);
        App {
            titles,
            index: 0,
            selected: None,
            items_length: 0,
            scroll_parser_tab: 0,
            scroll_vcd_tab: 0,
        }
    }

    /// Moves to the next tab, from the last one back to the first.
    pub fn next(&mut self)
        requires
            old(self).titles.len() > 0,
            old(self).index < usize::MAX,
        ensures
            final(self).wf(),
            final(self).index == (old(self).index + 1) % (old(self).titles.len() as int),
            final(self).titles == old(self).titles,
            final(self).selected == old(self).selected,
            final(self).items_length == old(self).items_length,
            final(self).scroll_parser_tab == old(self).scroll_parser_tab,
            final(self).scroll_vcd_tab == old(self).scroll_vcd_tab,
    {
        self.index = (self.index + 1) % self.titles.len();
    }

    /// Moves to the previous tab, from the first one round to the last.
    pub fn previous(&mut self)
        requires
            old(self).titles.len() > 0,
        ensures
            old(self).wf() ==> final(self).wf(),
            final(self).index == if old(self).index > 0 {
                old(self).index - 1
            } else {
                old(self).titles.len() - 1
            },
            final(self).titles == old(self).titles,
            final(self).selected == old(self).selected,
            final(self).items_length == old(self).items_length,
            final(self).scroll_parser_tab == old(self).scroll_parser_tab,
            final(self).scroll_vcd_tab == old(self).scroll_vcd_tab,
    {
        if self.index > 0 {
            self.index = self.index - 1;
        } else {
            self.index = self.titles.len() - 1;
        }
    }

    /// Selects the next row of the header table, from the last row back to
    /// the first; with nothing selected, the first row.
    pub fn next_header_tab(&mut self)
        requires
            old(self).items_length > 0 || old(self).selected is None,
        ensures
            final(self).selected == Some(row_below(old(self).selected, old(self).items_length)),
            final(self).titles == old(self).titles,
            final(self).index == old(self).index,
            final(self).items_length == old(self).items_length,
            final(self).scroll_parser_tab == old(self).scroll_parser_tab,
            final(self).scroll_vcd_tab == old(self).scroll_vcd_tab,
    {
        let i = match self.selected {
            Some(i) => if i >= self.items_length - 1 {
                0
            } else {
                i + 1
            },
            None => 0,
        };
        self.selected = Some(i);
    }

    /// Selects the previous row of the header table, from the first row round
    /// to the last; with nothing selected, the first row.
    pub fn previous_header_tab(&mut self)
        requires
            old(self).items_length > 0 || old(self).selected != Some(0usize),
        ensures
            final(self).selected == Some(row_above(old(self).selected, old(self).items_length)),
            final(self).titles == old(self).titles,
            final(self).index == old(self).index,
            final(self).items_length == old(self).items_length,
            final(self).scroll_parser_tab == old(self).scroll_parser_tab,
            final(self).scroll_vcd_tab == old(self).scroll_vcd_tab,
    {
        let i = match self.selected {
            Some(i) => if i == 0 {
                self.items_length - 1
            } else {
                i - 1
            },
            None => 0,
        };
        self.selected = Some(i);
    }

    /// Scrolls the parser tab one line down.
    pub fn scroll_parser_down(&mut self)
        requires
            old(self).scroll_parser_tab < u16::MAX,
        ensures
            final(self).scroll_parser_tab == old(self).scroll_parser_tab + 1,
            final(self).scroll_vcd_tab == old(self).scroll_vcd_tab,
            final(self).titles == old(self).titles,
            final(self).index == old(self).index,
            final(self).selected == old(self).selected,
            final(self).items_length == old(self).items_length,
    {
        self.scroll_parser_tab = self.scroll_parser_tab + 1;
    }

    /// Scrolls the parser tab one line up, never above the first line.
    pub fn scroll_parser_up(&mut self)
        ensures
            final(self).scroll_parser_tab == scrolled_up(old(self).scroll_parser_tab),
            final(self).scroll_vcd_tab == old(self).scroll_vcd_tab,
            final(self).titles == old(self).titles,
            final(self).index == old(self).index,
            final(self).selected == old(self).selected,
            final(self).items_length == old(self).items_length,
    {
        if self.scroll_parser_tab > 0 {
            self.scroll_parser_tab = self.scroll_parser_tab - 1;
        }
    }

    /// Scrolls the dump text tab one line down.
    pub fn scroll_vcd_down(&mut self)
        requires
            old(self).scroll_vcd_tab < u16::MAX,
        ensures
            final(self).scroll_vcd_tab == old(self).scroll_vcd_tab + 1,
            final(self).scroll_parser_tab == old(self).scroll_parser_tab,
            final(self).titles == old(self).titles,
            final(self).index == old(self).index,
            final(self).selected == old(self).selected,
            final(self).items_length == old(self).items_length,
    {
        self.scroll_vcd_tab = self.scroll_vcd_tab + 1;
    }

    /// Scrolls the dump text tab one line up, never above the first line.
    pub fn scroll_vcd_up(&mut self)
        ensures
            final(self).scroll_vcd_tab == scrolled_up(old(self).scroll_vcd_tab),
            final(self).scroll_parser_tab == old(self).scroll_parser_tab,
            final(self).titles == old(self).titles,
            final(self).index == old(self).index,
            final(self).selected == old(self).selected,
            final(self).items_length == old(self).items_length,
    {
        if self.scroll_vcd_tab > 0 {
            self.scroll_vcd_tab = self.scroll_vcd_tab - 1;
        }
    }

    /// The state after a key press. Next and previous change the tab; up
    /// and down scroll the parser or text tab, or move the selected header
    /// row, and do nothing on the plot tab. In an empty header table, where
    /// a row is selected that no move can leave, the selection stays.
    pub open spec fn after_key(self, key: Key) -> App {
        match key {
            Key::Next => App { index: ((self.index + 1) % (self.titles.len() as int)) as usize, ..self },
            Key::Previous => App {
                index: if self.index > 0 {
                    (self.index - 1) as usize
                } else {
                    (self.titles.len() - 1) as usize
                },
                ..self
            },
            Key::Up => if self.index == CODE_TAB {
                App { scroll_vcd_tab: scrolled_up(self.scroll_vcd_tab), ..self }
            } else if self.index == HEADER_TAB && (self.items_length > 0 || self.selected != Some(
                0usize,
            )) {
                App { selected: Some(row_above(self.selected, self.items_length)), ..self }
            } else if self.index == PARSER_TAB {
                App { scroll_parser_tab: scrolled_up(self.scroll_parser_tab), ..self }
            } else {
                self
            },
            Key::Down => if self.index == CODE_TAB {
                App { scroll_vcd_tab: scrolled_down(self.scroll_vcd_tab), ..self }
            } else if self.index == HEADER_TAB && (self.items_length > 0 || self.selected is None) {
                App { selected: Some(row_below(self.selected, self.items_length)), ..self }
            } else if self.index == PARSER_TAB {
                App { scroll_parser_tab: scrolled_down(self.scroll_parser_tab), ..self }
            } else {
                self
            },
            _ => self,
        }
    }

    /// Handles one key press; returns whether the screen is to be left.
    pub fn handle_key(&mut self, key: Key) -> (quit: bool)
        requires
            old(self).titles.len() > 0,
            old(self).index < usize::MAX,
        ensures
            quit == (key == Key::Quit),
            old(self).wf() ==> final(self).wf(),
            *final(self) == old(self).after_key(key),
    {
        match key {
            Key::Quit => return true,
            Key::Next => self.next(),
            Key::Previous => self.previous(),
            Key::Up => {
                if self.index == CODE_TAB {
                    self.scroll_vcd_up();
                } else if self.index == HEADER_TAB {
                    if self.items_length > 0 || self.selected != Some(0usize) {
                        self.previous_header_tab();
                    }
                } else if self.index == PARSER_TAB {
                    self.scroll_parser_up();
                }
            },
            Key::Down => {
                if self.index == CODE_TAB {
                    if self.scroll_vcd_tab < u16::MAX {
                        self.scroll_vcd_down();
                    }
                } else if self.index == HEADER_TAB {
                    if self.items_length > 0 || self.selected.is_none() {
                        self.next_header_tab();
                    }
                } else if self.index == PARSER_TAB {
                    if self.scroll_parser_tab < u16::MAX {
                        self.scroll_parser_down();
                    }
                }
            },
            Key::Other => {},
        }
        false
    }
}

} // verus!
