<?xml version="1.0" encoding="UTF-8"?>
<interface>
  <requires lib="gtk" version="4.10"/>
  <object class="GtkBox" id="button">
    <property name="halign">center</property>
    <property name="valign">center</property>
    <property name="can-focus">false</property>
    <property name="tooltip-text">Skills &amp; MCP</property>
    <style><class name="actions-toggle-button"/></style>
    <child><object class="GtkImage">
      <property name="icon-name">3d-box-symbolic</property>
      <property name="pixel-size">14</property>
      <property name="hexpand">true</property>
      <property name="halign">center</property>
    </object></child>
  </object>
  <object class="GtkPopover" id="popover">
    <property name="position">bottom</property>
    <style><class name="actions-popover"/></style>
    <child>
      <object class="GtkBox">
        <property name="orientation">vertical</property>
        <property name="spacing">6</property>
        <property name="margin-start">8</property>
        <property name="margin-end">8</property>
        <property name="margin-top">8</property>
        <property name="margin-bottom">8</property>
        <property name="width-request">430</property>
        <style><class name="actions-popover-root"/></style>
        <child><object class="GtkLabel">
          <property name="label">Skills &amp; MCP</property>
          <property name="xalign">0</property>
          <style><class name="actions-popover-title"/></style>
        </object></child>
        <child><object class="GtkLabel" id="profile">
          <property name="label">Profile: -</property>
          <property name="xalign">0</property>
          <style><class name="actions-popover-workspace"/></style>
        </object></child>
        <child><object class="GtkLabel" id="status">
          <property name="xalign">0</property>
          <property name="wrap">true</property>
          <property name="wrap-mode">word-char</property>
          <style><class name="actions-popover-status"/></style>
        </object></child>
        <child><object class="GtkLabel">
          <property name="label">Toggle assignment for the active profile. Stopped profiles are read-only in Settings.</property>
          <property name="xalign">0</property>
          <property name="wrap">true</property>
          <property name="wrap-mode">word-char</property>
          <style><class name="actions-popover-status"/></style>
        </object></child>
        <child>
          <object class="GtkScrolledWindow">
            <property name="hscrollbar-policy">never</property>
            <property name="min-content-height">220</property>
            <child><object class="GtkBox" id="list">
              <property name="orientation">vertical</property>
              <property name="spacing">4</property>
            </object></child>
          </object>
        </child>
        <child>
          <object class="GtkBox">
            <property name="spacing">8</property>
            <child><object class="GtkButton" id="refresh">
              <property name="label">Refresh</property>
              <style><class name="app-flat-button"/><class name="actions-add-button"/></style>
            </object></child>
            <child><object class="GtkButton" id="add">
              <property name="label">Add Skill / MCP</property>
              <style><class name="app-flat-button"/><class name="actions-add-button"/></style>
            </object></child>
          </object>
        </child>
      </object>
    </child>
  </object>
</interface>
