use vstd::prelude::*;

verus! {

/// The decimal digits of `n`, most significant first, in ASCII.
pub open spec fn decimal(n: nat) -> Seq<u8>
    decreases n,
{
    if n < 10 {
        seq![(48 + n) as u8]
    } else {
        decimal(n / 10).push((48 + n % 10) as u8)
    }
}

/// ASCII line feed.
pub const NEWLINE: u8 = 10;

/// The ASCII text ` is open` followed by a newline.
pub open spec fn is_open_suffix() -> Seq<u8> {
    seq![32u8, 105u8, 115u8, 32u8, 111u8, 112u8, 101u8, 110u8, NEWLINE]
}

/// The line that reports one open port: `<port> is open` and a newline.
pub open spec fn open_line(port: u16) -> Seq<u8> {
    decimal(port as nat) + is_open_suffix()
}

/// One line for each port, in the order given.
pub open spec fn open_lines(ports: Seq<u16>) -> Seq<u8>
    decreases ports.len(),
{
    if ports.len() == 0 {
        Seq::empty()
    } else {
        open_lines(ports.drop_last()) + open_line(ports.last())
    }
}

/// The text printed once a scan is over: a blank line, then one line for
/// each open port.
pub open spec fn report_text(ports: Seq<u16>) -> Seq<u8> {
    seq![NEWLINE] + open_lines(ports)
}

/// Appends the decimal digits of `n` to `out`.
fn push_decimal(out: &mut Vec<u8>, n: u16)
    ensures
        final(out)@ == old(out)@ + decimal(n as nat),
    decreases n,
{
    if n >= 10 {
        push_decimal(out, n / 10);
    }
    let d: u8 = (n % 10) as u8;
    out.push(48 + d);
    proof {
        assert(final(out)@ =~= old(out)@ + decimal(n as nat));
    }
}

/// Appends the line that reports `port` as open.
fn push_open_line(out: &mut Vec<u8>, port: u16)
    ensures
        final(out)@ == old(out)@ + open_line(port),
{
    push_decimal(out, port);
    // " is open"
    out.push(32);
    out.push(105);
    out.push(115);
    out.push(32);
    out.push(111);
    out.push(112);
    out.push(101);
    out.push(110);
    out.push(NEWLINE);
    proof {
        assert(final(out)@ =~= old(out)@ + open_line(port));
    }
}

/// The report for the open ports `ports`, listed in the order given.
pub fn render_report(ports: &Vec<u16>) -> (r: Vec<u8>)
    ensures
        r@ == report_text(ports@),
{
    let mut r: Vec<u8> = Vec::new();
    r.push(NEWLINE);
    let mut k: usize = 0;
    proof {
        assert(ports@.subrange(0, 0) =~= Seq::<u16>::empty());
        assert(r@ =~= report_text(ports@.subrange(0, 0)));
    }
    while k < ports.len()
        invariant
            0 <= k <= ports@.len(),
            r@ == report_text(ports@.subrange(0, k as int)),
        decreases ports@.len() - k,
    {
        push_open_line(&mut r, ports[k]);
        proof {
            let next = ports@.subrange(0, k + 1);
            assert(next.drop_last() =~= ports@.subrange(0, k as int));
            assert(r@ =~= report_text(next));
        }
        k = k + 1;
    }
    proof {
        assert(ports@.subrange(0, k as int) =~= ports@);
    }
    r
}

} // verus!
