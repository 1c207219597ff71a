//! Options of the corporate-action export command and their interpretation.

use vstd::prelude::*;
use crate::text::{
    ends_with, parse_u32, parse_u32_str, split, split_str, str_ends_with, str_eq, trim, trim_str,
    views,
};

verus! {

/// Options of a corporate-action export.
pub struct GbbqCmd {
    /// Path of the corporate-action archive.
    pub gbbq_file: String,
    /// Output: a path ending in `csv`, or `clickhouse`.
    pub output: String,
    /// Keep the intermediate table file after loading it into a warehouse.
    pub keep_csv: bool,
    /// Target table as `database.table`.
    pub table: String,
    /// Only records of this category.
    pub category: Option<u8>,
    /// Only records of these comma-separated codes.
    pub stocks: Option<String>,
    /// Only records dated within `YYYYMMDD-YYYYMMDD`, both ends included.
    pub date_range: Option<String>,
    /// Option names whose usage notes are asked for.
    pub description: Vec<String>,
}

/// Where an export is sent.
#[derive(PartialEq, Eq, Structural, Clone, Copy, Debug)]
pub enum OutputTarget {
    Clickhouse,
    Csv,
    Unsupported,
}

/// The option whose usage notes a help argument asks for.
#[derive(PartialEq, Eq, Structural, Clone, Copy, Debug)]
pub enum HelpTopic {
    Output,
    Category,
    Stocks,
    Date,
    Unknown,
}

/// The code list: the comma-separated pieces, each trimmed.
pub open spec fn stocks_spec(stocks: Option<String>) -> Option<Seq<Seq<char>>> {
    match stocks {
        None => None,
        Some(s) => Some(split(s@, ',').map_values(|p: Seq<char>| trim(p))),
    }
}

/// The date window: exactly two `-`-separated pieces, each a `u32`.
pub open spec fn date_range_spec(range: Option<String>) -> Option<(u32, u32)> {
    match range {
        None => None,
        Some(s) => {
            let parts = split(s@, '-');
            if parts.len() == 2 {
                match (parse_u32(parts[0]), parse_u32(parts[1])) {
                    (Some(a), Some(b)) => Some((a, b)),
                    _ => None,
                }
            } else {
                None
            }
        },
    }
}

pub open spec fn output_target_spec(output: Seq<char>) -> OutputTarget {
    if output == "clickhouse"@ {
        OutputTarget::Clickhouse
    } else if ends_with(output, "csv"@) {
        OutputTarget::Csv
    } else {
        OutputTarget::Unsupported
    }
}

pub open spec fn help_topic_spec(arg: Seq<char>) -> HelpTopic {
    if arg == "output"@ || arg == "o"@ {
        HelpTopic::Output
    } else if arg == "category"@ || arg == "c"@ {
        HelpTopic::Category
    } else if arg == "stocks"@ || arg == "s"@ {
        HelpTopic::Stocks
    } else if arg == "date"@ || arg == "d"@ {
        HelpTopic::Date
    } else {
        HelpTopic::Unknown
    }
}

/// The option that a help argument names, by its long or its one-letter name.
pub fn help_topic(arg: &str) -> (r: HelpTopic)
    ensures
        r == help_topic_spec(arg@),
{
    if str_eq(arg, "output") || str_eq(arg, "o") {
        HelpTopic::Output
    } else if str_eq(arg, "category") || str_eq(arg, "c") {
        HelpTopic::Category
    } else if str_eq(arg, "stocks") || str_eq(arg, "s") {
        HelpTopic::Stocks
    } else if str_eq(arg, "date") || str_eq(arg, "d") {
        HelpTopic::Date
    } else {
        HelpTopic::Unknown
    }
}

impl GbbqCmd {
    /// Where the export goes: `clickhouse` exactly, else a name ending in `csv`.
    pub fn output_target(&self) -> (r: OutputTarget)
        ensures
            r == output_target_spec(self.output@),
    {
        if str_eq(self.output.as_str(), "clickhouse") {
            OutputTarget::Clickhouse
        } else if str_ends_with(self.output.as_str(), "csv") {
            OutputTarget::Csv
        } else {
            OutputTarget::Unsupported
        }
    }

    /// The topics of the help arguments, in order.
    pub fn help_topics(&self) -> (r: Vec<HelpTopic>)
        ensures
            r@ == self.description@.map_values(|a: String| help_topic_spec(a@)),
    {
        let mut r: Vec<HelpTopic> = Vec::new();
        let mut i: usize = 0;
        while i < self.description.len()
            invariant
                i <= self.description@.len(),
                r@ == self.description@.subrange(0, i as int).map_values(
                    |a: String| help_topic_spec(a@),
                ),
            decreases self.description@.len() - i,
        {
            r.push(help_topic(self.description[i].as_str()));
            i = i + 1;
            assert(r@ =~= self.description@.subrange(0, i as int).map_values(
                |a: String| help_topic_spec(a@),
            ));
        }
        assert(self.description@.subrange(0, i as int) =~= self.description@);
        r
    }

    /// The code list: the comma-separated pieces of `stocks`, each trimmed.
    pub fn parse_stocks(&self) -> (r: Option<Vec<String>>)
        ensures
            r.is_some() == self.stocks.is_some(),
            r.is_some() ==> Some(views(r.unwrap()@)) == stocks_spec(self.stocks),
    {
        match &self.stocks {
            None => None,
            Some(s) => {
                let pieces = split_str(s.as_str(), ',');
                let ghost sp = split(s@, ',');
                let mut out: Vec<String> = Vec::new();
                let mut i: usize = 0;
                while i < pieces.len()
                    invariant
                        i <= pieces@.len(),
                        views(pieces@) == sp,
                        out@.len() == i,
                        views(out@) == sp.subrange(0, i as int).map_values(
                            |p: Seq<char>| trim(p),
                        ),
                    decreases pieces@.len() - i,
                {
                    assert(views(pieces@)[i as int] == pieces@[i as int]@);
                    let t = trim_str(pieces[i].as_str());
                    let ghost before = out@;
                    out.push(t);
                    proof {
                        let goal = sp.subrange(0, i + 1).map_values(|p: Seq<char>| trim(p));
                        assert forall|k: int| 0 <= k < i + 1 implies views(out@)[k] == goal[k] by {
                            if k < i {
                                assert(out@[k] == before[k]);
                                assert(views(before)[k] == before[k]@);
                            }
                        }
                    }
                    i = i + 1;
                    assert(views(out@) =~= sp.subrange(0, i as int).map_values(
                        |p: Seq<char>| trim(p),
                    ));
                }
                assert(sp.subrange(0, i as int) =~= sp);
                Some(out)
            },
        }
    }

    /// The date window `(start, end)`, or `None` where `date_range` is absent or
    /// not two `u32` numbers joined by `-`.
    pub fn parse_date_range(&self) -> (r: Option<(u32, u32)>)
        ensures
            r == date_range_spec(self.date_range),
    {
        match &self.date_range {
            None => None,
            Some(range) => {
                let parts = split_str(range.as_str(), '-');
                assert(views(parts@) == split(range@, '-'));
                if parts.len() == 2 {
                    assert(parts[0]@ == split(range@, '-')[0]);
                    assert(parts[1]@ == split(range@, '-')[1]);
                    let start = parse_u32_str(parts[0].as_str());
                    let end = parse_u32_str(parts[1].as_str());
                    match (start, end) {
                        (Some(a), Some(b)) => Some((a, b)),
                        _ => None,
                    }
                } else {
                    None
                }
            },
        }
    }
}

} // verus!
