//! The decisions of a peer that sends its queued lines over a data channel:
//! each line is sent until the line `quit` or the message limit is reached,
//! and then the channel is closed. Running the channel is the caller's part.
use vstd::prelude::*;

verus! {

/// Most messages a peer sends before it closes the channel.
pub const MAX_MESSAGES: u32 = 5;

/// What to do with the next queued line.
#[derive(Debug, Clone, Copy, PartialEq, Eq, Structural)]
pub enum ChannelStep {
    /// Send the line; one more message has then been sent.
    Send,
    /// Close the channel and stop.
    Close,
}

/// The step for `line` after `sent` messages have gone out.
pub fn channel_step(line: &str, sent: u32) -> (r: ChannelStep)
    ensures
        r == ChannelStep::Close <==> (line@ == "quit"@ || sent >= MAX_MESSAGES),
{
    if sent >= MAX_MESSAGES {
        return ChannelStep::Close;
    }
    let quit = "quit";
    let n = line.unicode_len();
    proof {
        reveal_strlit("quit");
    }
    if n != 4 {
        return ChannelStep::Send;
    }
    let same = line.get_char(0) == 'q' && line.get_char(1) == 'u' && line.get_char(2) == 'i'
        && line.get_char(3) == 't';
    proof {
        if same {
            assert(line@ =~= quit@);
        } else {
            assert(line@ != quit@);
        }
    }
    if same {
        ChannelStep::Close
    } else {
        ChannelStep::Send
    }
}

/// The text sent for `line`: the peer's name, a colon and a space, the line.
pub fn outgoing_text(peer_name: &str, line: &str) -> (r: String)
    ensures
        r@ == peer_name@ + ": "@ + line@,
{
    let mut out = String::new();
    out.append(peer_name);
    out.append(": ");
    out.append(line);
    assert(out@ =~= peer_name@ + ": "@ + line@);
    out
}

} // verus!
