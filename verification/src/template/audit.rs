//! Keeping what was found in a template.
use crate::store::rows::{TemplateVersionRow, TemplateView};
use crate::store::settings;
use crate::store::Store;
use crate::template::inspect::TemplateAudit;
use vstd::prelude::*;

verus! {

/// Records what was found in a template under its name, in place of what was recorded before.
/// Cells and drawings are given as JSON.
pub fn write_template_version(
    store: &mut Store,
    audit: &TemplateAudit,
    cell_map_json: &str,
    drawing_anchors_json: &str,
    now: &str,
)
    ensures
        final(store)@ == settings::with_template(
            old(store)@,
            TemplateView {
                template_name: audit.template_name@,
                template_sha256: audit.sha256@,
                cell_map_json: cell_map_json@,
                drawing_anchors_json: drawing_anchors_json@,
                last_validated_at: now@,
                notes: None,
            },
        ),
        old(store)@.wf() ==> final(store)@.wf(),
{
    store.put_template(
        TemplateVersionRow {
            template_name: audit.template_name.clone(),
            template_sha256: audit.sha256.clone(),
            cell_map_json: cell_map_json.to_owned(),
            drawing_anchors_json: drawing_anchors_json.to_owned(),
            last_validated_at: now.to_owned(),
            notes: None,
        },
    );
}

} // verus!
