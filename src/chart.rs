use vstd::prelude::*;
use vstd::string::StringExecFns;
use crate::series::{TimeSeries, has_time};
use crate::align::{Aligned, AlignError, align, align_error, aligns};
use crate::timestamp::{format_millis, formatted_millis, timeline_labels};

verus! {

/// Pattern of the timestamps in observed data.
pub const TRUTH_STAMP_FORMAT: &'static str = "%m/%d/%Y %H:%M:%S";

/// Pattern of the timestamps in forecast data, which carry no seconds.
pub const FORECAST_STAMP_FORMAT: &'static str = "%m/%d/%Y %H:%M";

/// Pattern of the time labels along the x axis.
pub const LABEL_FORMAT: &'static str = "%m/%d/%Y %H:%M";

/// Pattern of the generation time in an output file name.
pub const FILE_STAMP_FORMAT: &'static str = "%Y%m%d%H%M%S";

/// Titles and size of a chart.
#[derive(Clone, Debug)]
pub struct GraphConfig {
    pub title: String,
    pub x_label: String,
    pub y_label: String,
    pub graph_width: u32,
    pub graph_height: u32,
}

impl Default for GraphConfig {
    fn default() -> (r: Self)
        ensures
            r.title@ == "Graph"@,
            r.x_label@ == "X-axis"@,
            r.y_label@ == "Y-axis"@,
            r.graph_width == 3840,
            r.graph_height == 2160,
    {
        GraphConfig {
            title: "Graph".to_owned(),
            x_label: "X-axis".to_owned(),
            y_label: "Y-axis".to_owned(),
            graph_width: 3840,
            graph_height: 2160,
        }
    }
}

/// How the two lines of a line chart are drawn.
#[derive(Clone, Debug)]
pub struct LineStyle {
    pub notes: String,
    pub line_thickness: u32,
    pub forecast_color: String,
}

impl Default for LineStyle {
    fn default() -> (r: Self)
        ensures
            r.notes@ == ""@,
            r.line_thickness == 5,
            r.forecast_color@ == "GREEN"@,
    {
        LineStyle { notes: "".to_owned(), line_thickness: 5, forecast_color: "GREEN".to_owned() }
    }
}

/// The kinds of chart that can be drawn, each with its own settings.
#[derive(Clone, Debug)]
pub enum ChartSpec {
    Line { config: GraphConfig, style: LineStyle },
    Pie { config: GraphConfig },
}

impl ChartSpec {
    /// The tag that names this kind of chart in output file names.
    pub fn kind_tag(&self) -> (r: String)
        ensures
            self is Line ==> r@ == "LineChart"@,
            self is Pie ==> r@ == "PieChart"@,
    {
        match self {
            ChartSpec::Line { .. } => "LineChart".to_owned(),
            ChartSpec::Pie { .. } => "PieChart".to_owned(),
        }
    }

    /// The settings shared by every kind of chart.
    pub fn config(&self) -> (r: &GraphConfig)
        ensures
            self matches ChartSpec::Line { config, .. } ==> r == config,
            self matches ChartSpec::Pie { config } ==> r == config,
    {
        match self {
            ChartSpec::Line { config, .. } => config,
            ChartSpec::Pie { config } => config,
        }
    }
}

/// What a line chart of observed against forecast values draws: a label for
/// each timestamp of the aligned timeline, and both value sequences.
#[derive(Clone, Debug)]
pub struct LinePlot<V> {
    pub labels: Vec<String>,
    pub aligned: Aligned<V>,
}

/// Why a line chart could not be prepared.
#[derive(Clone, Copy, Debug, PartialEq, Eq, Structural)]
pub enum PlotError {
    /// The two series could not be aligned.
    Align(AlignError),
    /// A timestamp could not be written as a label.
    Label,
}

/// Aligns `truth` with `forecast` and labels each timestamp with `label_fmt`.
pub fn plan_line_chart<V: Copy>(truth: &TimeSeries<V>, forecast: &TimeSeries<V>, label_fmt: &str) -> (r: Result<
    LinePlot<V>,
    PlotError,
>)
    ensures
        match r {
            Ok(p) => {
                &&& align_error(truth.samples@, forecast.samples@) is None
                &&& aligns(p.aligned, truth.samples@, forecast.samples@)
                &&& p.labels@.len() == p.aligned.timeline@.len()
                &&& forall|k: int| 0 <= k < p.labels@.len() ==> formatted_millis(p.aligned.timeline@[k], label_fmt@) == Some(
                    #[trigger] p.labels@[k]@,
                )
            },
            Err(PlotError::Align(e)) => align_error(truth.samples@, forecast.samples@) == Some(e),
            Err(PlotError::Label) => {
                &&& align_error(truth.samples@, forecast.samples@) is None
                &&& exists|t: i64| #![trigger formatted_millis(t, label_fmt@)]
                    (has_time(truth.samples@, t) || has_time(forecast.samples@, t)) && formatted_millis(t, label_fmt@) is None
            },
        },
{
    let aligned = match align(truth, forecast) {
        Ok(al) => al,
        Err(e) => return Err(PlotError::Align(e)),
    };
    match timeline_labels(&aligned.timeline, label_fmt) {
        Some(labels) => Ok(LinePlot { labels, aligned }),
        None => {
            proof {
                let k = choose|k: int| 0 <= k < aligned.timeline@.len() && !(#[trigger] formatted_millis(aligned.timeline@[k], label_fmt@) is Some);
                assert(aligned.timeline@.contains(aligned.timeline@[k]));
            }
            Err(PlotError::Label)
        },
    }
}

/// The path `dir/tag_stamp.ext`, where `stamp` writes the instant `now_ms`
/// with `FILE_STAMP_FORMAT`; `None` where that instant cannot be written.
pub fn chart_file_name(dir: &str, tag: &str, ext: &str, now_ms: i64) -> (r: Option<String>)
    ensures
        match formatted_millis(now_ms, FILE_STAMP_FORMAT@) {
            Some(stamp) => r matches Some(n) && n@ == dir@ + "/"@ + tag@ + "_"@ + stamp + "."@ + ext@,
            None => r is None,
        },
{
    match format_millis(now_ms, FILE_STAMP_FORMAT) {
        Some(stamp) => {
            let mut name = dir.to_owned();
            name.append("/");
            name.append(tag);
            name.append("_");
            name.append(stamp.as_str());
            name.append(".");
            name.append(ext);
            Some(name)
        },
        None => None,
    }
}

} // verus!
