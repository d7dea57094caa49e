<?xml version="1.0" encoding="UTF-8"?>
<interface>
  <requires lib="gtk" version="4.10"/>
  <object class="GtkBox" id="root">
    <property name="orientation">vertical</property>
    <property name="spacing">8</property>
    <property name="margin-start">12</property>
    <property name="margin-end">12</property>
    <property name="margin-top">12</property>
    <property name="margin-bottom">12</property>
    <child>
      <object class="GtkBox">
        <property name="spacing">8</property>
        <child><object class="GtkButton" id="back">
          <property name="label">Back</property>
          <property name="visible">false</property>
        </object></child>
        <child><object class="GtkLabel" id="title">
          <property name="label">Available Models</property>
          <property name="xalign">0</property>
          <property name="hexpand">true</property>
          <style><class name="profile-section-title"/></style>
        </object></child>
        <child><object class="GtkButton" id="refresh"><property name="label">Refresh</property></object></child>
      </object>
    </child>
    <child><object class="GtkLabel" id="status">
      <property name="label">Loading models from OpenCode...</property>
      <property name="xalign">0</property>
      <style><class name="dim-label"/></style>
    </object></child>
    <child>
      <object class="GtkScrolledWindow">
        <property name="hscrollbar-policy">never</property>
        <property name="min-content-height">420</property>
        <property name="hexpand">true</property>
        <property name="vexpand">true</property>
        <child>
          <object class="GtkStack" id="stack">
            <property name="transition-type">slide-left-right</property>
            <property name="transition-duration">180</property>
            <child><object class="GtkStackPage">
              <property name="name">providers</property>
              <property name="child"><object class="GtkBox" id="providers">
                <property name="orientation">vertical</property>
                <property name="spacing">8</property>
                <property name="valign">start</property>
              </object></property>
            </object></child>
            <child><object class="GtkStackPage">
              <property name="name">models</property>
              <property name="child"><object class="GtkBox" id="models">
                <property name="orientation">vertical</property>
                <property name="spacing">8</property>
                <property name="valign">start</property>
              </object></property>
            </object></child>
          </object>
        </child>
      </object>
    </child>
  </object>
</interface>
