<?xml version="1.0" encoding="UTF-8"?>
<interface>
  <requires lib="gtk" version="4.10"/>
  <object class="GtkListBoxRow" id="row">
    <style><class name="file-preview-diff-row"/></style>
    <child>
      <object class="GtkBox">
        <property name="spacing">8</property>
        <property name="margin-start">8</property>
        <property name="margin-end">8</property>
        <property name="margin-top">6</property>
        <property name="margin-bottom">6</property>
        <child><object class="GtkImage" id="icon">
          <property name="pixel-size">13</property>
          <property name="valign">center</property>
          <style><class name="file-preview-diff-row-icon"/></style>
        </object></child>
        <child>
          <object class="GtkBox">
            <property name="orientation">vertical</property>
            <property name="spacing">2</property>
            <property name="hexpand">true</property>
            <child><object class="GtkLabel" id="title">
              <property name="xalign">0</property>
              <property name="ellipsize">end</property>
              <style><class name="file-preview-diff-row-title"/></style>
            </object></child>
            <child><object class="GtkLabel" id="subtitle">
              <property name="xalign">0</property>
              <property name="ellipsize">end</property>
              <style><class name="file-preview-diff-row-subtitle"/></style>
            </object></child>
          </object>
        </child>
      </object>
    </child>
  </object>
</interface>
