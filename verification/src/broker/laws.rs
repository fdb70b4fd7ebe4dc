//! What the HTTP and WebSocket service promises.

use vstd::prelude::*;
use vstd::string::*;

use crate::broker::ota_routes;
use crate::broker::ota_routes::{FieldKind, FormView};
use crate::broker::ws;
use crate::broker::ws::{ActionView, WsEvent};
use crate::transport::lite_ota;

verus! {

/// A client is sent every mesh event that could be written, word for word, and nothing else;
/// the connection ends exactly when there will be no more events, when the client is gone,
/// or when an event could not be sent. Falling behind does not end it.
pub proof fn law_streaming(event: WsEvent)
    ensures
        ws::action_for(event) is Send <==> event is Mesh && event->Mesh_0 is Some,
        event matches WsEvent::Mesh(Some(json)) ==> ws::action_for(event) == ActionView::Send(json@),
        ws::action_for(event) is Stop <==> event is SourceClosed || event is ClientClosed || (event is Sent && !event->Sent_0),
{
}

/// Firmware is taken exactly if there is some and it is no larger than the partition of
/// three mebibytes; what is refused is the client's fault, and each fault reads differently.
/// Without a version it counts as version 0.0.0.
pub proof fn law_uploads(form: FormView, other: FormView)
    ensures
        form.refusal() is None <==> form.firmware is Some && 0 < form.firmware->Some_0.len() <= 3 * 1024 * 1024,
        form.refusal() matches Some(e) ==> e.status == 400,
        form.firmware is None && other.firmware is Some && other.refusal() is Some ==> form.refusal()->Some_0.error
            != other.refusal()->Some_0.error,
        form.firmware is Some && other.firmware is Some && form.firmware->Some_0.len() == 0 && other.firmware->Some_0.len()
            > 3 * 1024 * 1024 ==> form.refusal()->Some_0.error != other.refusal()->Some_0.error,
        form.firmware == other.firmware ==> form.refusal() == other.refusal(),
        form.version is Some ==> form.version_or_default() == form.version->Some_0,
        form.version is None ==> form.version_or_default() == "0.0.0"@,
{
    reveal_strlit("missing 'firmware' field");
    reveal_strlit("firmware file is empty");
    reveal_strlit("firmware too large (max 3MB)");
    assert("missing 'firmware' field"@[0] == 'm');
    assert("firmware file is empty"@[0] == 'f');
    assert("firmware file is empty"@[9] == 'f');
    assert("firmware too large (max 3MB)"@[0] == 'f');
    assert("firmware too large (max 3MB)"@[9] == 't');
}

/// A field of the form is the firmware or the version exactly if it has that name.
pub proof fn law_form_fields(name: Seq<char>)
    ensures
        ota_routes::field_kind(name) == FieldKind::Firmware <==> name == "firmware"@,
        ota_routes::field_kind(name) == FieldKind::Version <==> name == "version"@,
{
    reveal_strlit("firmware");
    reveal_strlit("version");
    assert("firmware"@.len() == 8 && "version"@.len() == 7);
}

} // verus!
