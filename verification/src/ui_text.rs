//! The texts that the user interface shows: table cells and the messages
//! of its status lines and alerts.

use vstd::prelude::*;
use crate::services::ServiceRow;
use crate::startup::{label_spec, StartupEntry, StartupSource};
use crate::text::{dec, dec_u64, string_of};

verus! {

/// `a + b + c`.
fn concat3(a: &str, b: &str, c: &str) -> (r: String)
    ensures
        r@ == a@ + b@ + c@,
{
    let mut r = String::from_str(a);
    r.append(b);
    r.append(c);
    r
}

/// `a + b + c + d + e`.
fn concat5(a: &str, b: &str, c: &str, d: &str, e: &str) -> (r: String)
    ensures
        r@ == a@ + b@ + c@ + d@ + e@,
{
    let mut r = String::from_str(a);
    r.append(b);
    r.append(c);
    r.append(d);
    r.append(e);
    r
}

/// The text of column `col` of a service row: name, state, description;
/// empty beyond.
pub fn service_cell_text(s: &ServiceRow, col: i32) -> (r: String)
    ensures
        r@ == (if col == 0 {
            s.name@
        } else if col == 1 {
            s.state@
        } else if col == 2 {
            s.description@
        } else {
            Seq::<char>::empty()
        }),
{
    if col == 0 {
        s.name.clone()
    } else if col == 1 {
        s.state.clone()
    } else if col == 2 {
        s.description.clone()
    } else {
        String::new()
    }
}

/// The state word of a startup entry.
pub open spec fn enabled_word(enabled: bool) -> Seq<char> {
    if enabled {
        "Activé"@
    } else {
        "Désactivé"@
    }
}

/// The state word of a startup entry.
pub fn enabled_text(enabled: bool) -> (r: &'static str)
    ensures
        r@ == enabled_word(enabled),
{
    if enabled {
        "Activé"
    } else {
        "Désactivé"
    }
}

/// The text of column `col` of a startup entry: name, command, source
/// label, state; empty beyond.
pub fn startup_cell_text(e: &StartupEntry, col: i32) -> (r: String)
    ensures
        r@ == (if col == 0 {
            e.name@
        } else if col == 1 {
            e.command@
        } else if col == 2 {
            label_spec(e.source)
        } else if col == 3 {
            enabled_word(e.enabled)
        } else {
            Seq::<char>::empty()
        }),
{
    if col == 0 {
        e.name.clone()
    } else if col == 1 {
        e.command.clone()
    } else if col == 2 {
        String::from_str(e.source.label())
    } else if col == 3 {
        String::from_str(enabled_text(e.enabled))
    } else {
        String::new()
    }
}

/// The used space of a disk: its total minus its available space, zero at
/// least.
pub fn used_space(total: u64, available: u64) -> (r: u64)
    ensures
        r == (if total >= available {
            total - available
        } else {
            0
        }),
{
    total.saturating_sub(available)
}

/// The status line after selecting a process.
pub fn process_selection_text(pid: u32, name: &str) -> (r: String)
    ensures
        r@ == "Sélection : PID "@ + dec(pid as nat) + " ("@ + name@ + ")"@,
{
    let d = dec_u64(pid as u64);
    let ds = string_of(d.as_slice());
    concat5("Sélection : PID ", ds.as_str(), " (", name, ")")
}

/// The status line after selecting a service.
pub fn service_selection_text(name: &str, state: &str) -> (r: String)
    ensures
        r@ == "Sélection : "@ + name@ + " ("@ + state@ + ")"@,
{
    concat5("Sélection : ", name, " (", state, ")")
}

/// The status line after selecting a startup entry.
pub fn startup_selection_text(name: &str, source: StartupSource, enabled: bool) -> (r: String)
    ensures
        r@ == "Sélection : "@ + name@ + " ("@ + label_spec(source) + ") -- "@ + enabled_word(
            enabled,
        ),
{
    let mut r = concat5("Sélection : ", name, " (", source.label(), ") -- ");
    r.append(enabled_text(enabled));
    r
}

/// The status line when an action needs a selected service.
pub fn no_service_selected_text() -> (r: String)
    ensures
        r@ == "Sélectionne d'abord un service dans la liste."@,
{
    String::from_str("Sélectionne d'abord un service dans la liste.")
}

/// The status line when an action needs a selected startup entry.
pub fn no_entry_selected_text() -> (r: String)
    ensures
        r@ == "Sélectionne d'abord une entrée dans la liste."@,
{
    String::from_str("Sélectionne d'abord une entrée dans la liste.")
}

/// The status line after a service action succeeded.
pub fn service_action_ok_text(name: &str) -> (r: String)
    ensures
        r@ == "OK : action appliquée sur "@ + name@ + "."@,
{
    concat3("OK : action appliquée sur ", name, ".")
}

/// The status line after an action on `name` failed with `error`.
pub fn action_failed_text(name: &str, error: &str) -> (r: String)
    ensures
        r@ == "Échec sur "@ + name@ + " : "@ + error@,
{
    let mut r = concat3("Échec sur ", name, " : ");
    r.append(error);
    r
}

/// The alert after a service action failed.
pub fn service_action_alert(name: &str, error: &str) -> (r: String)
    ensures
        r@ == "Échec de l'action sur le service \""@ + name@ + "\" :\n\n"@ + error@,
{
    let mut r = concat3("Échec de l'action sur le service \"", name, "\" :\n\n");
    r.append(error);
    r
}

/// The status line after enabling or disabling a startup entry.
pub fn startup_toggle_ok_text(name: &str, enabled: bool) -> (r: String)
    ensures
        r@ == "OK : "@ + name@ + " "@ + (if enabled {
            "activé"@
        } else {
            "désactivé"@
        }) + "."@,
{
    concat5(
        "OK : ",
        name,
        " ",
        if enabled {
            "activé"
        } else {
            "désactivé"
        },
        ".",
    )
}

/// The alert after an action on a startup entry failed.
pub fn startup_action_alert(name: &str, error: &str) -> (r: String)
    ensures
        r@ == "Échec de l'action sur \""@ + name@ + "\" :\n\n"@ + error@,
{
    let mut r = concat3("Échec de l'action sur \"", name, "\" :\n\n");
    r.append(error);
    r
}

/// Whether an entry to add lacks a name or a command (after trimming).
pub fn entry_fields_missing(name: &str, command: &str) -> (r: bool)
    ensures
        r == (crate::text::trim(name@).len() == 0 || crate::text::trim(command@).len() == 0),
{
    let n = crate::text::chars_of(name);
    let c = crate::text::chars_of(command);
    crate::text::trim_chars(n.as_slice()).len() == 0 || crate::text::trim_chars(
        c.as_slice(),
    ).len() == 0
}

/// The status line when an entry to add lacks a name or a command.
pub fn fields_required_text() -> (r: String)
    ensures
        r@ == "Nom et commande sont obligatoires."@,
{
    String::from_str("Nom et commande sont obligatoires.")
}

/// The status line after an entry was added.
pub fn entry_added_text(name: &str) -> (r: String)
    ensures
        r@ == "OK : \""@ + name@ + "\" ajouté au démarrage."@,
{
    concat3("OK : \"", name, "\" ajouté au démarrage.")
}

/// The status line after adding an entry failed.
pub fn add_failed_text(error: &str) -> (r: String)
    ensures
        r@ == "Échec de l'ajout : "@ + error@,
{
    let mut r = String::from_str("Échec de l'ajout : ");
    r.append(error);
    r
}

/// The alert after adding an entry failed.
pub fn add_failed_alert(name: &str, error: &str) -> (r: String)
    ensures
        r@ == "Échec de l'ajout de \""@ + name@ + "\" :\n\n"@ + error@,
{
    let mut r = concat3("Échec de l'ajout de \"", name, "\" :\n\n");
    r.append(error);
    r
}

/// The status line after an entry was removed.
pub fn entry_removed_text(name: &str) -> (r: String)
    ensures
        r@ == "OK : \""@ + name@ + "\" supprimé."@,
{
    concat3("OK : \"", name, "\" supprimé.")
}

/// The status line after removing an entry failed.
pub fn remove_failed_text(error: &str) -> (r: String)
    ensures
        r@ == "Échec de la suppression : "@ + error@,
{
    let mut r = String::from_str("Échec de la suppression : ");
    r.append(error);
    r
}

/// The alert after removing an entry failed.
pub fn remove_failed_alert(name: &str, error: &str) -> (r: String)
    ensures
        r@ == "Échec de la suppression de \""@ + name@ + "\" :\n\n"@ + error@,
{
    let mut r = concat3("Échec de la suppression de \"", name, "\" :\n\n");
    r.append(error);
    r
}

/// The alert after a task could not be launched.
pub fn run_task_alert(error: &str) -> (r: String)
    ensures
        r@ == "Erreur : "@ + error@,
{
    let mut r = String::from_str("Erreur : ");
    r.append(error);
    r
}

/// The memory line of the top bar: used and total memory, in readable
/// units.
pub fn ram_text(used: u64, total: u64) -> (r: String)
    ensures
        r@ == "RAM : "@ + crate::state::human_bytes_spec(used as nat) + " / "@
            + crate::state::human_bytes_spec(total as nat),
{
    let u = crate::state::human_bytes(used);
    let t = crate::state::human_bytes(total);
    let mut r = concat3("RAM : ", u.as_str(), " / ");
    r.append(t.as_str());
    r
}

} // verus!
