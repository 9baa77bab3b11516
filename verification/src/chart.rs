//! The traffic chart: whether there is one, its size and its axes.
use crate::error::{Error, ErrorView, Result};
use crate::render::fill;
use crate::render::fill::{PortLine, PortLineView};
use crate::text;
use vstd::prelude::*;

verus! {

/// The width of the chart on an invoice, in pixels.
pub const CHART_WIDTH: u32 = 2069;

/// The height of the chart on an invoice, in pixels.
pub const CHART_HEIGHT: u32 = 713;

/// How many samples the chart on an invoice shows.
pub const CHART_SAMPLES: i64 = 30;

/// Whether `load` is what the chart of these ports shows, in megabits per second: the highest load
/// that is recorded of one of them, and nothing where none is above zero.
pub open spec fn is_load(ports: Seq<PortLineView>, load: Option<i64>) -> bool {
    match load {
        Some(m) => {
            &&& m > 0
            &&& exists|i: int| 0 <= i < ports.len() && (#[trigger] ports[i]).mbps_95th == Some(m)
            &&& forall|i: int|
                0 <= i < ports.len() ==> ((#[trigger] ports[i]).mbps_95th matches Some(n) ==> n
                    <= m)
        },
        None => forall|i: int|
            0 <= i < ports.len() ==> ((#[trigger] ports[i]).mbps_95th matches Some(n) ==> n <= 0),
    }
}

/// What the chart of these ports shows.
pub fn chart_load(ports: &Vec<PortLine>) -> (r: Option<i64>)
    ensures
        is_load(fill::line_views(ports@), r),
{
    let ghost v = fill::line_views(ports@);
    let mut load: Option<i64> = None;
    let mut i: usize = 0;
    while i < ports.len()
        invariant
            i <= ports@.len(),
            v == fill::line_views(ports@),
            is_load(v.take(i as int), load),
        decreases ports@.len() - i,
    {
        let ghost held = v.take(i as int);
        let ghost more = v.take(i + 1);
        assert(more =~= held.push(v[i as int]));
        assert(v[i as int] == ports@[i as int]@);
        let best: i64 = match load {
            Some(m) => m,
            None => 0,
        };
        if let Some(n) = ports[i].mbps_95th {
            if n > best {
                load = Some(n);
            }
        }
        proof {
            assert(more[i as int] == v[i as int]);
            assert forall|k: int| 0 <= k < more.len() implies ((#[trigger] more[k]).mbps_95th matches Some(
                n,
            ) ==> n <= (match load {
                Some(m) => m,
                None => 0,
            })) by {
                if k < i {
                    assert(more[k] == held[k]);
                }
            }
            if let Some(m) = load {
                if v[i as int].mbps_95th != Some(m) {
                    let k = choose|k: int|
                        0 <= k < held.len() && (#[trigger] held[k]).mbps_95th == Some(m);
                    assert(more[k] == held[k]);
                }
            }
        }
        i = i + 1;
    }
    assert(v.take(i as int) =~= v);
    load
}

/// A chart must have a size.
pub fn check_size(width: u32, height: u32) -> (r: Result<()>)
    ensures
        r is Ok <==> width > 0 && height > 0,
        r matches Err(e) ==> e@ == ErrorView::Template(
            "chart size must be > 0: "@ + text::dec(width as nat) + "x"@ + text::dec(
                height as nat,
            ),
        ),
{
    if width == 0 || height == 0 {
        let w = text::string_of(&text::digits(width as u64));
        let h = text::string_of(&text::digits(height as u64));
        return Err(Error::Template(text::cat4("chart size must be > 0: ", &w, "x", &h)));
    }
    Ok(())
}

/// Where the time axis ends: behind the last sample, and never at its beginning.
pub fn axis_end(samples: usize) -> (r: usize)
    ensures
        r == (if samples == 0 {
            1
        } else {
            samples
        }),
{
    if samples == 0 {
        1
    } else {
        samples
    }
}

// ---------------------------------------------------------------------------
// Laws
// ---------------------------------------------------------------------------

/// The ports determine what their chart shows.
pub proof fn law_one_load(ports: Seq<PortLineView>, a: Option<i64>, b: Option<i64>)
    requires
        is_load(ports, a),
        is_load(ports, b),
    ensures
        a == b,
{
}

/// The chart shows a load that a port has and that no port exceeds, and there is a chart exactly
/// where a port has a load above zero.
pub proof fn law_chart_shows_the_highest(ports: Seq<PortLineView>, load: Option<i64>)
    requires
        is_load(ports, load),
    ensures
        load is Some <==> exists|i: int|
            0 <= i < ports.len() && (#[trigger] ports[i]).mbps_95th is Some
                && ports[i].mbps_95th->0 > 0,
        load is Some ==> exists|i: int|
            0 <= i < ports.len() && (#[trigger] ports[i]).mbps_95th == load,
        load is Some ==> forall|i: int|
            0 <= i < ports.len() && (#[trigger] ports[i]).mbps_95th is Some
                ==> ports[i].mbps_95th->0 <= load->0,
{
    if let Some(m) = load {
        let i = choose|i: int| 0 <= i < ports.len() && (#[trigger] ports[i]).mbps_95th == Some(m);
        assert(ports[i].mbps_95th->0 > 0);
    }
}

/// With one more port the chart shows no less.
pub proof fn law_one_more_port(
    ports: Seq<PortLineView>,
    more: PortLineView,
    load: Option<i64>,
    after: Option<i64>,
)
    requires
        is_load(ports, load),
        is_load(ports.push(more), after),
    ensures
        load is Some ==> after is Some && after->0 >= load->0,
        more.mbps_95th is Some && more.mbps_95th->0 > 0 ==> after is Some && after->0
            >= more.mbps_95th->0,
        after is Some ==> after == load || after == more.mbps_95th,
{
    let all = ports.push(more);
    assert(all[ports.len() as int] == more);
    assert forall|i: int| 0 <= i < ports.len() implies all[i] == #[trigger] ports[i] by {
    }
    if let Some(m) = load {
        let i = choose|i: int| 0 <= i < ports.len() && (#[trigger] ports[i]).mbps_95th == Some(m);
        assert(all[i].mbps_95th == Some(m));
    }
    if let Some(m) = after {
        let i = choose|i: int| 0 <= i < all.len() && (#[trigger] all[i]).mbps_95th == Some(m);
        if i < ports.len() {
            assert(ports[i].mbps_95th == Some(m));
        }
    }
}

} // verus!
