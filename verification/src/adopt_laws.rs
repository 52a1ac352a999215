//! Where the adopted printer is kept, and what connecting to it over LE comes to.

use vstd::prelude::*;

use crate::adopt::{
    joined, spec_le_outcome, spec_le_step, spec_store_dir, AdoptOutcome, LeConnect, LeStep, StoreHints,
};
use crate::ble::session::ConnectCall;
use crate::text::{split, starts_with};

verus! {

/// A directory that is named wins; then the variables in their order, where they are not empty; then the private
/// directory where there is one.
pub proof fn lemma_store_dirs(h: StoreHints)
    ensures
        h.explicit matches Some(d) ==> spec_store_dir(h) == d@,
        h.explicit is None ==> (h.state_dir matches Some(d) ==> d@.len() > 0 ==> spec_store_dir(h) == d@),
        h.explicit is None && h.state_dir is None ==> (h.state_directory matches Some(d) ==> split(d@, ':')[0].len()
            > 0 ==> spec_store_dir(h) == split(d@, ':')[0]),
        h.explicit is None && h.state_dir is None && h.state_directory is None ==> spec_store_dir(h)
            == if h.private_exists {
            crate::adopt::PRIVATE_STATE_DIR@
        } else {
            crate::adopt::DEFAULT_STATE_DIR@
        },
{
}

/// A name in a directory stands behind exactly one slash.
pub proof fn lemma_names_in_directories(dir: Seq<char>, name: Seq<char>)
    requires
        dir.len() > 0,
    ensures
        starts_with(joined(dir, name), dir),
        dir.last() == '/' ==> joined(dir, name) == dir + name,
        dir.last() != '/' ==> joined(dir, name) == dir.push('/') + name,
        joined(Seq::empty(), name) == name,
{
    reveal_strlit("/");
    assert(joined(dir, name).subrange(0, dir.len() as int) =~= dir);
    assert(dir + "/"@ + name =~= dir.push('/') + name);
}

/// A connection that came about is the object's making; a call that BlueZ does not know means that its experimental
/// part is off; an object that stands in the way is made anew; one that is connected, or being connected, is used.
pub proof fn lemma_le_calls(call: ConnectCall)
    ensures
        call is Connected <==> spec_le_outcome(call) == LeConnect::CreatedLe,
        call is TimedOut ==> spec_le_outcome(call) == LeConnect::Failed,
        call matches ConnectCall::Failed(e) ==> {
            &&& e.name() == Some("org.freedesktop.DBus.Error.UnknownMethod"@) ==> spec_le_outcome(call)
                == LeConnect::NeedExperimental
            &&& e.name() == Some("org.bluez.Error.AlreadyExists"@) ==> spec_le_outcome(call) == LeConnect::Recreate
            &&& e.name() == Some("org.bluez.Error.AlreadyConnected"@) ==> spec_le_outcome(call)
                == LeConnect::ReuseIfConnected
            &&& e.name() == Some("org.bluez.Error.InProgress"@) ==> spec_le_outcome(call)
                == LeConnect::WaitInProgress
            &&& e.name() is None ==> spec_le_outcome(call) == LeConnect::Failed
        },
{
    reveal_strlit("org.freedesktop.DBus.Error.UnknownMethod");
    reveal_strlit("org.bluez.Error.AlreadyExists");
    reveal_strlit("org.bluez.Error.AlreadyConnected");
    reveal_strlit("org.bluez.Error.InProgress");
    assert("org.freedesktop.DBus.Error.UnknownMethod"@.len() == 40);
    assert("org.bluez.Error.AlreadyExists"@.len() == 29);
    assert("org.bluez.Error.AlreadyConnected"@.len() == 32);
    assert("org.bluez.Error.InProgress"@.len() == 26);
}

/// What is said of an adopted printer ends in its address.
pub proof fn lemma_outcomes(o: AdoptOutcome)
    ensures
        o matches AdoptOutcome::Adopted { address, already } ==> o.text() == (if already {
            "already adopted "@
        } else {
            "adopted "@
        }) + address@,
        o matches AdoptOutcome::Forgotten { address: Some(a) } ==> o.text() == "forgot "@ + a@,
{
}

/// An object that stands in the way is removed once, and only once; what came about is trusted.
pub proof fn lemma_le_steps(attempt: u8, call: ConnectCall)
    ensures
        call is Connected ==> spec_le_step(attempt, spec_le_outcome(call)) == LeStep::TrustCreated,
        call is TimedOut ==> spec_le_step(attempt, spec_le_outcome(call)) == LeStep::NotFound,
        spec_le_step(attempt, LeConnect::Recreate) == LeStep::RemoveAndRetry <==> attempt == 0,
        attempt > 0 ==> spec_le_step(attempt, LeConnect::Recreate) == LeStep::NotFound,
        spec_le_step(attempt, LeConnect::NeedExperimental) == LeStep::NeedExperimental,
        spec_le_step(attempt, LeConnect::ReuseIfConnected) == LeStep::TrustIfConnected,
        spec_le_step(attempt, LeConnect::WaitInProgress) == LeStep::TrustIfConnected,
{
}

} // verus!
