<?xml version="1.0" encoding="UTF-8"?>
<interface>
  <requires lib="gtk" version="4.10"/>
  <object class="GtkBox" id="root">
    <property name="orientation">vertical</property>
    <property name="spacing">10</property>
    <property name="margin-start">14</property>
    <property name="margin-end">14</property>
    <property name="margin-top">14</property>
    <property name="margin-bottom">14</property>
    <child>
      <object class="GtkBox">
        <property name="spacing">10</property>
        <property name="hexpand">true</property>
        <child>
          <object class="GtkBox">
            <property name="orientation">vertical</property>
            <property name="spacing">4</property>
            <property name="hexpand">true</property>
            <child><object class="GtkLabel">
              <property name="label">AGENTS.md</property>
              <property name="xalign">0</property>
              <style><class name="thread-settings-title"/></style>
            </object></child>
            <child><object class="GtkLabel" id="subtitle">
              <property name="xalign">0</property>
              <property name="wrap">true</property>
              <style><class name="thread-settings-subtitle"/></style>
            </object></child>
          </object>
        </child>
        <child><object class="GtkButton" id="open">
          <property name="icon-name">document-edit-symbolic</property>
          <property name="tooltip-text">Open AGENTS.md in default app</property>
          <style><class name="app-flat-button"/><class name="circular"/><class name="thread-settings-open-button"/></style>
        </object></child>
      </object>
    </child>
    <child>
      <object class="GtkBox">
        <property name="orientation">vertical</property>
        <style><class name="thread-settings-content"/></style>
        <child>
          <object class="GtkScrolledWindow">
            <property name="hscrollbar-policy">never</property>
            <property name="vexpand">true</property>
            <child><object class="GtkLabel" id="text">
              <property name="xalign">0</property>
              <property name="yalign">0</property>
              <property name="wrap">true</property>
              <property name="wrap-mode">word-char</property>
              <property name="selectable">true</property>
              <property name="margin-start">14</property>
              <property name="margin-end">14</property>
              <property name="margin-top">14</property>
              <property name="margin-bottom">14</property>
            </object></child>
          </object>
        </child>
      </object>
    </child>
    <child><object class="GtkButton" id="close">
      <property name="label">Close</property>
      <property name="halign">end</property>
    </object></child>
  </object>
</interface>
