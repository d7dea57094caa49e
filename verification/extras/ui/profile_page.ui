<?xml version="1.0" encoding="UTF-8"?>
<interface>
  <requires lib="gtk" version="4.10"/>
  <object class="GtkStringList" id="model"/>
  <object class="GtkBox" id="root">
    <property name="orientation">vertical</property>
    <property name="spacing">10</property>
    <property name="margin-start">12</property>
    <property name="margin-end">12</property>
    <property name="margin-top">12</property>
    <property name="margin-bottom">12</property>
    <child>
      <object class="GtkBox">
        <property name="spacing">8</property>
        <property name="hexpand">true</property>
        <property name="valign">start</property>
        <child><object class="GtkLabel" id="intro">
          <property name="xalign">0</property>
          <property name="wrap">true</property>
          <property name="wrap-mode">word-char</property>
          <property name="hexpand">true</property>
          <property name="halign">start</property>
          <style><class name="dim-label"/></style>
        </object></child>
        <child><object class="GtkButton" id="models">
          <property name="label">Models</property>
          <property name="halign">end</property>
          <style><class name="profile-create-button"/></style>
        </object></child>
      </object>
    </child>
    <child>
      <object class="GtkBox">
        <property name="orientation">vertical</property>
        <property name="spacing">8</property>
        <style><class name="profile-settings-section"/></style>
        <child><object class="GtkLabel" id="title">
          <property name="xalign">0</property>
          <style><class name="profile-section-title"/></style>
        </object></child>
        <child>
          <object class="GtkBox" id="profile_row">
            <property name="spacing">8</property>
            <style><class name="profile-selector-row"/></style>
            <child><object class="GtkButton" id="icon_button">
              <property name="halign">start</property>
              <style><class name="profile-icon-inline-button"/></style>
              <child><object class="GtkImage" id="icon_image">
                <property name="icon-name">person-symbolic</property>
                <property name="pixel-size">15</property>
              </object></child>
            </object></child>
            <child><object class="GtkDropDown" id="combo">
              <property name="model">model</property>
              <property name="hexpand">true</property>
            </object></child>
          </object>
        </child>
        <child><object class="GtkLabel" id="status"><property name="xalign">0</property></object></child>
        <child><object class="GtkLabel" id="account"><property name="xalign">0</property></object></child>
        <child><object class="GtkLabel" id="system_note">
          <property name="xalign">0</property>
          <property name="wrap">true</property>
          <property name="wrap-mode">word-char</property>
          <property name="visible">false</property>
          <style><class name="dim-label"/></style>
        </object></child>
      </object>
    </child>
    <child>
      <object class="GtkBox" id="runtime_section">
        <property name="orientation">vertical</property>
        <property name="spacing">8</property>
        <style><class name="profile-settings-section"/></style>
        <child><object class="GtkLabel" id="runtime_title">
          <property name="xalign">0</property>
          <style><class name="profile-section-title"/></style>
        </object></child>
        <child>
          <object class="GtkBox">
            <property name="spacing">6</property>
            <style><class name="profile-runtime-actions"/></style>
            <child><object class="GtkButton" id="start">
              <property name="label">Start</property>
              <style><class name="profile-runtime-start"/></style>
            </object></child>
            <child><object class="GtkButton" id="stop">
              <property name="label">Stop</property>
              <style><class name="profile-runtime-stop"/></style>
            </object></child>
            <child><object class="GtkButton" id="restart">
              <property name="label">Restart</property>
              <style><class name="profile-runtime-restart"/></style>
            </object></child>
            <child><object class="GtkButton" id="remove">
              <property name="label">Remove Profile</property>
              <style><class name="destructive-action"/></style>
            </object></child>
          </object>
        </child>
      </object>
    </child>
    <child>
      <object class="GtkBox" id="auth_section">
        <property name="orientation">vertical</property>
        <property name="spacing">8</property>
        <style><class name="profile-settings-section"/></style>
        <child><object class="GtkLabel" id="auth_title">
          <property name="xalign">0</property>
          <style><class name="profile-section-title"/></style>
        </object></child>
        <child><object class="GtkLabel" id="auth_intro">
          <property name="xalign">0</property>
          <property name="wrap">true</property>
          <property name="wrap-mode">word-char</property>
          <style><class name="dim-label"/></style>
        </object></child>
        <child>
          <object class="GtkBox" id="provider_row">
            <property name="spacing">8</property>
            <child>
              <object class="GtkButton" id="provider_selector">
                <property name="name">opencode-provider-selector</property>
                <property name="hexpand">true</property>
                <property name="halign">fill</property>
                <property name="width-request">320</property>
                <style><class name="opencode-provider-selector"/></style>
                <child>
                  <object class="GtkBox">
                    <property name="spacing">8</property>
                    <style><class name="opencode-provider-selector-content"/></style>
                    <child><object class="GtkLabel" id="provider_label">
                      <property name="name">opencode-provider-selector-label</property>
                      <property name="label">(None)</property>
                      <property name="xalign">0</property>
                      <property name="hexpand">true</property>
                      <property name="ellipsize">end</property>
                      <style><class name="opencode-provider-selector-label"/></style>
                    </object></child>
                    <child><object class="GtkImage">
                      <property name="icon-name">pan-down-symbolic</property>
                    </object></child>
                  </object>
                </child>
              </object>
            </child>
            <child><object class="GtkButton" id="refresh_providers">
              <property name="label">Refresh</property>
            </object></child>
          </object>
        </child>
        <child><object class="GtkLabel" id="provider_hint">
          <property name="xalign">0</property>
          <property name="wrap">true</property>
          <property name="wrap-mode">word-char</property>
          <style><class name="dim-label"/></style>
        </object></child>
        <child>
          <object class="GtkBox">
            <property name="spacing">6</property>
            <style><class name="profile-auth-actions"/></style>
            <child><object class="GtkButton" id="login"/></child>
            <child><object class="GtkButton" id="api_key">
              <property name="label">Set API Key</property>
            </object></child>
            <child><object class="GtkButton" id="logout">
              <property name="label">Logout</property>
            </object></child>
          </object>
        </child>
      </object>
    </child>
    <child><object class="GtkLabel" id="operation">
      <property name="xalign">0</property>
      <property name="wrap">true</property>
      <property name="wrap-mode">word-char</property>
      <property name="visible">false</property>
      <style><class name="dim-label"/></style>
    </object></child>
    <child>
      <object class="GtkBox" id="login_panel">
        <property name="orientation">vertical</property>
        <property name="spacing">6</property>
        <property name="visible">false</property>
        <style><class name="profile-settings-section"/></style>
        <child><object class="GtkLabel" id="login_title">
          <property name="xalign">0</property>
          <style><class name="profile-section-title"/></style>
        </object></child>
        <child>
          <object class="GtkBox">
            <property name="spacing">6</property>
            <child><object class="GtkEntry" id="link">
              <property name="editable">false</property>
              <property name="hexpand">true</property>
            </object></child>
            <child><object class="GtkButton" id="open_link"><property name="label">Open</property></object></child>
            <child><object class="GtkButton" id="copy_link"><property name="label">Copy</property></object></child>
          </object>
        </child>
        <child>
          <object class="GtkBox" id="device_row">
            <property name="spacing">6</property>
            <child><object class="GtkLabel">
              <property name="label">Code</property>
              <property name="xalign">0</property>
              <style><class name="dim-label"/></style>
            </object></child>
            <child><object class="GtkLabel" id="device_code">
              <property name="xalign">0</property>
              <property name="hexpand">true</property>
              <style><class name="monospace"/></style>
            </object></child>
            <child><object class="GtkButton" id="copy_code"><property name="label">Copy Code</property></object></child>
          </object>
        </child>
        <child><object class="GtkLabel" id="login_hint">
          <property name="xalign">0</property>
          <property name="wrap">true</property>
          <property name="wrap-mode">word-char</property>
          <style><class name="dim-label"/></style>
        </object></child>
        <child>
          <object class="GtkBox" id="waiting_row">
            <property name="spacing">6</property>
            <child><object class="GtkSpinner" id="spinner"/></child>
            <child><object class="GtkLabel">
              <property name="label">Waiting for authorization...</property>
              <property name="xalign">0</property>
              <style><class name="dim-label"/></style>
            </object></child>
          </object>
        </child>
        <child>
          <object class="GtkBox" id="code_row">
            <property name="spacing">6</property>
            <child><object class="GtkEntry" id="code">
              <property name="hexpand">true</property>
              <property name="placeholder-text">Paste authorization code</property>
            </object></child>
            <child><object class="GtkButton" id="complete"><property name="label">Complete Login</property></object></child>
          </object>
        </child>
      </object>
    </child>
  </object>
  <object class="GtkPopover" id="provider_popover">
    <property name="name">opencode-provider-picker-popover</property>
    <property name="position">bottom</property>
    <child>
      <object class="GtkBox">
        <property name="name">opencode-provider-picker-root</property>
        <property name="orientation">vertical</property>
        <property name="spacing">6</property>
        <property name="margin-start">8</property>
        <property name="margin-end">8</property>
        <property name="margin-top">8</property>
        <property name="margin-bottom">8</property>
        <property name="width-request">320</property>
        <style><class name="opencode-provider-picker-root"/></style>
        <child><object class="GtkSearchEntry" id="provider_search">
          <property name="name">opencode-provider-search</property>
          <property name="placeholder-text">Filter providers</property>
          <property name="width-request">320</property>
          <style><class name="opencode-provider-search"/></style>
        </object></child>
        <child>
          <object class="GtkScrolledWindow">
            <property name="name">opencode-provider-picker-scroll</property>
            <property name="hscrollbar-policy">never</property>
            <property name="min-content-height">180</property>
            <property name="max-content-height">280</property>
            <property name="overlay-scrolling">false</property>
            <property name="width-request">320</property>
            <style><class name="opencode-provider-picker-scroll"/></style>
            <child><object class="GtkBox" id="provider_list">
              <property name="name">opencode-provider-picker-list</property>
              <property name="orientation">vertical</property>
              <property name="spacing">4</property>
              <property name="margin-end">8</property>
              <style><class name="opencode-provider-picker-list"/></style>
            </object></child>
          </object>
        </child>
      </object>
    </child>
  </object>
  <object class="GtkButton" id="create">
    <property name="label">Create New</property>
    <style><class name="profile-create-button"/></style>
  </object>
</interface>
