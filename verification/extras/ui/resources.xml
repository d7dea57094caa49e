<?xml version="1.0" encoding="UTF-8"?>
<gresources>
  <gresource prefix="/dev/enzim/ui">
    <file>chat_pane.ui</file>
    <file>context_item.ui</file>
    <file>diff_row.ui</file>
    <file>gap.ui</file>
    <file>icon_picker.ui</file>
    <file>key_prompt.ui</file>
    <file>model_group.ui</file>
    <file>models_window.ui</file>
    <file>multi_chat.ui</file>
    <file>preview_window.ui</file>
    <file>profile_page.ui</file>
    <file>provider_row.ui</file>
    <file>rename_thread.ui</file>
    <file>restore_dialog.ui</file>
    <file>restore_row.ui</file>
    <file>skill_entry.ui</file>
    <file>skills_popover.ui</file>
    <file>style_picker.ui</file>
    <file>thread_row.ui</file>
    <file>thread_settings.ui</file>
    <file>top_bar.ui</file>
  </gresource>
  <gresource prefix="/dev/enzim/styles">
    <file alias="backdrop.css">../styles/backdrop.css</file>
    <file alias="global.css">../styles/global.css</file>
    <file alias="overrides.css">../styles/overrides.css</file>
  </gresource>
</gresources>
