<?xml version="1.0" encoding="UTF-8"?>
<interface>
  <requires lib="gtk" version="4.10"/>
  <object class="GtkBox" id="root">
    <property name="orientation">vertical</property>
    <property name="spacing">10</property>
    <property name="margin-start">14</property>
    <property name="margin-end">14</property>
    <property name="margin-top">14</property>
    <property name="margin-bottom">14</property>
    <child><object class="GtkEntry" id="title"><property name="placeholder-text">Thread title</property></object></child>
    <child>
      <object class="GtkBox">
        <property name="spacing">8</property>
        <property name="halign">end</property>
        <child><object class="GtkButton" id="cancel"><property name="label">Cancel</property></object></child>
        <child><object class="GtkButton" id="rename"><property name="label">Rename</property></object></child>
      </object>
    </child>
  </object>
</interface>
