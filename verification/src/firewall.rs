//! The daemon's side of the firewall helper: the request line it sends and
//! what it makes of the answer.

use vstd::prelude::*;
use crate::text::{dec, push_decimal, push_str};

verus! {

fn text(t: &str) -> (r: String)
    ensures
        r@ == t@,
{
    let mut s = String::new();
    push_str(&mut s, t);
    s
}

/// The request line: `{"op":"<op>","port":<port>}` and a newline.
pub fn request_line(op: &str, port: u16) -> (r: String)
    ensures
        r@ == "{\"op\":\""@ + op@ + "\",\"port\":"@ + dec(port as nat) + "}\n"@,
{
    let mut s = text("{\"op\":\"");
    push_str(&mut s, op);
    push_str(&mut s, "\",\"port\":");
    push_decimal(&mut s, port as u64);
    push_str(&mut s, "}\n");
    s
}

/// The outcome of an answer: the backend that applied the rule (`?` when
/// it named none), or the error (`erro não informado` when it gave none).
pub fn interpret_answer(ok: bool, backend: String, error: String) -> (r: Result<String, String>)
    ensures
        ok && backend@.len() > 0 ==> r == Ok::<String, String>(backend),
        ok && backend@.len() == 0 ==> (r matches Ok(b) && b@ == "?"@),
        !ok && error@.len() > 0 ==> r == Err::<String, String>(error),
        !ok && error@.len() == 0 ==> (r matches Err(e) && e@ == "erro não informado"@),
{
    let bv = crate::text::chars_of(backend.as_str());
    let ev = crate::text::chars_of(error.as_str());
    if ok {
        if bv.len() == 0 {
            Ok(text("?"))
        } else {
            Ok(backend)
        }
    } else if ev.len() == 0 {
        Err(text("erro não informado"))
    } else {
        Err(error)
    }
}

/// The build-log line about opening a service's external port: exposed when
/// no firewall is active, opened by the named backend, or a warning.
pub fn firewall_log_line(host_port: u16, outcome: &Result<String, String>) -> (r: String)
    ensures
        match outcome {
            Ok(b) => if b@ == "none"@ {
                r@ == "--> Porta externa "@ + dec(host_port as nat)
                    + " exposta (nenhum firewall ativo no host)"@
            } else {
                r@ == "--> Porta externa "@ + dec(host_port as nat) + " liberada no firewall ("@ + b@
                    + ")"@
            },
            Err(e) => r@ == "--> Aviso: não foi possível liberar a porta "@ + dec(host_port as nat)
                + " no firewall: "@ + e@ + ". Se a conexão externa falhar, libere-a manualmente."@,
        },
{
    match outcome {
        Ok(b) => {
            let mut s = text("--> Porta externa ");
            push_decimal(&mut s, host_port as u64);
            if crate::text::str_eq(b.as_str(), "none") {
                push_str(&mut s, " exposta (nenhum firewall ativo no host)");
            } else {
                push_str(&mut s, " liberada no firewall (");
                push_str(&mut s, b.as_str());
                push_str(&mut s, ")");
            }
            s
        },
        Err(e) => {
            let mut s = text("--> Aviso: não foi possível liberar a porta ");
            push_decimal(&mut s, host_port as u64);
            push_str(&mut s, " no firewall: ");
            push_str(&mut s, e.as_str());
            push_str(&mut s, ". Se a conexão externa falhar, libere-a manualmente.");
            s
        },
    }
}

} // verus!
