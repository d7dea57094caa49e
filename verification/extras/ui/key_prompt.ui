<?xml version="1.0" encoding="UTF-8"?>
<interface>
  <requires lib="gtk" version="4.10"/>
  <object class="GtkStringList" id="providers"/>
  <object class="GtkBox" id="root">
    <property name="orientation">vertical</property>
    <property name="spacing">10</property>
    <property name="margin-start">12</property>
    <property name="margin-end">12</property>
    <property name="margin-top">12</property>
    <property name="margin-bottom">12</property>
    <child><object class="GtkLabel" id="provider_label">
      <property name="label">Provider</property>
      <property name="xalign">0</property>
    </object></child>
    <child><object class="GtkDropDown" id="dropdown"><property name="model">providers</property></object></child>
    <child><object class="GtkLabel">
      <property name="label">API Key</property>
      <property name="xalign">0</property>
    </object></child>
    <child><object class="GtkPasswordEntry" id="key">
      <property name="show-peek-icon">true</property>
      <property name="placeholder-text">Paste provider API key</property>
    </object></child>
    <child><object class="GtkLabel" id="status">
      <property name="xalign">0</property>
      <property name="wrap">true</property>
      <property name="wrap-mode">word-char</property>
      <property name="visible">false</property>
    </object></child>
    <child>
      <object class="GtkBox">
        <property name="spacing">8</property>
        <property name="halign">end</property>
        <child><object class="GtkButton" id="cancel"><property name="label">Cancel</property></object></child>
        <child><object class="GtkButton" id="save">
          <property name="label">Save</property>
          <style><class name="suggested-action"/></style>
        </object></child>
      </object>
    </child>
  </object>
</interface>
