//! A concurrent TCP port scanner's core: the port-range request, the set of
//! ports that answered, and the text that reports them.

pub mod report;
pub mod request;
pub mod results;

pub use report::{decimal, open_line, open_lines, render_report, report_text};
pub use request::{
    end_port_guard, lemma_each_port_attempted_once, port_range, start_port_guard, IpAddress,
    ScanRequest, MAX_PORT,
};
pub use results::{
    is_report_of, lemma_no_lost_or_duplicated, lemma_report_independent_of_arrival_order,
    strictly_ascending, ResultSet,
};
