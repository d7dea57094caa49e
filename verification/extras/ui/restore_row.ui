<?xml version="1.0" encoding="UTF-8"?>
<interface>
  <requires lib="gtk" version="4.10"/>
  <object class="GtkListBoxRow" id="row">
    <style><class name="restore-preview-row"/></style>
    <child>
      <object class="GtkBox">
        <property name="orientation">vertical</property>
        <property name="spacing">4</property>
        <property name="margin-start">8</property>
        <property name="margin-end">8</property>
        <property name="margin-top">6</property>
        <property name="margin-bottom">6</property>
        <child>
          <object class="GtkBox">
            <property name="spacing">8</property>
            <child><object class="GtkLabel" id="path">
              <property name="xalign">0</property>
              <property name="hexpand">true</property>
              <style><class name="restore-preview-path"/></style>
            </object></child>
            <child><object class="GtkLabel" id="kind">
              <style><class name="restore-preview-kind"/></style>
            </object></child>
            <child><object class="GtkCheckButton" id="force">
              <property name="label">Force</property>
              <style><class name="restore-preview-force"/></style>
            </object></child>
          </object>
        </child>
        <child><object class="GtkLabel" id="reason"><property name="xalign">0</property></object></child>
      </object>
    </child>
  </object>
</interface>
